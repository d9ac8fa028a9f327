//! The 92-byte GPT header, its CRC32-protected serialization, and its
//! validation.

use vstd::prelude::*;
use vstd::bytes::*;
use vstd::slice::{slice_subrange, slice_to_vec};
use crate::checksum::{crc32, crc32_of};
use crate::codec::{
    push_u32_le, push_u64_le, read_u32_le, read_u64_le, spec_splice, write_bytes_at,
};
use crate::geometry::{array_blocks, spec_array_blocks, spec_last_lba, spec_valid_block_size};
use crate::guid::{lemma_guid_view_len, spec_me_swap, Guid};
use crate::Error;

verus! {

broadcast use lemma_guid_view_len;

/// `"EFI "` as a little-endian `u32`.
pub const SIGNATURE_LO: u32 = 0x20494645;

/// `"PART"` as a little-endian `u32`.
pub const SIGNATURE_HI: u32 = 0x54524150;

/// The one supported GPT revision, `0x00010000`.
pub const REVISION: u32 = 0x00010000;

/// The size of the serialized header in bytes.
pub const HEADER_SIZE: u32 = 92;

/// Which of the two header copies is meant.
#[derive(Clone, Copy, Debug, PartialEq, Eq)]
pub enum HeaderKind {
    Primary,
    Backup,
}

/// Where the first usable logical block is placed.
#[derive(Clone, Copy, Debug, PartialEq, Eq)]
pub enum Align {
    /// Align the usable range to 1 MiB boundaries (block 2048 at 512-byte
    /// blocks), as modern partitioners do.
    Optimal,
    /// Start the usable range right after the primary partition array.
    Minimal,
}

/// A GPT header in logical form.
///
/// The signature, revision, header size, reserved field and header CRC32
/// are fixed or derived data and are not stored; serialization emits
/// them and validation checks them.
#[derive(Clone, Copy, Debug, PartialEq, Eq)]
pub struct Header {
    /// The logical block this header lives in.
    pub this_lba: u64,
    /// The logical block of the other copy.
    pub alt_lba: u64,
    /// First logical block that partitions may use.
    pub first_usable: u64,
    /// Last logical block that partitions may use (inclusive).
    pub last_usable: u64,
    /// The disk's GUID.
    pub disk_guid: Guid,
    /// The logical block where this header's partition array starts.
    pub array_start: u64,
    /// Number of entries in the partition array.
    pub partitions: u32,
    /// Size in bytes of one partition entry: 128 times a power of two.
    pub entry_size: u32,
    /// CRC32 of the partition array.
    pub partitions_crc32: u32,
}

/// The 92 header bytes, CRC32 field still zero, of a header given by
/// its fields (the disk GUID as its RFC 4122 bytes).
pub open spec fn spec_hv_nocrc(
    this_lba: u64,
    alt_lba: u64,
    first_usable: u64,
    last_usable: u64,
    disk_guid: Seq<u8>,
    array_start: u64,
    partitions: u32,
    entry_size: u32,
    partitions_crc32: u32,
) -> Seq<u8> {
    spec_u32_to_le_bytes(SIGNATURE_LO) + spec_u32_to_le_bytes(SIGNATURE_HI)
        + spec_u32_to_le_bytes(REVISION) + spec_u32_to_le_bytes(HEADER_SIZE)
        + spec_u32_to_le_bytes(0u32) + spec_u32_to_le_bytes(0u32)
        + spec_u64_to_le_bytes(this_lba) + spec_u64_to_le_bytes(alt_lba)
        + spec_u64_to_le_bytes(first_usable) + spec_u64_to_le_bytes(last_usable)
        + spec_me_swap(disk_guid) + spec_u64_to_le_bytes(array_start)
        + spec_u32_to_le_bytes(partitions) + spec_u32_to_le_bytes(entry_size)
        + spec_u32_to_le_bytes(partitions_crc32)
}

/// The 92 on-disk header bytes of a header given by its fields: the
/// CRC32 of the zero-CRC form, spliced into offset 16.
pub open spec fn spec_hv_bytes(
    this_lba: u64,
    alt_lba: u64,
    first_usable: u64,
    last_usable: u64,
    disk_guid: Seq<u8>,
    array_start: u64,
    partitions: u32,
    entry_size: u32,
    partitions_crc32: u32,
) -> Seq<u8> {
    let nocrc = spec_hv_nocrc(
        this_lba,
        alt_lba,
        first_usable,
        last_usable,
        disk_guid,
        array_start,
        partitions,
        entry_size,
        partitions_crc32,
    );
    spec_splice(nocrc, 16, spec_u32_to_le_bytes(crc32_of(nocrc)))
}

/// The 92 header bytes with the CRC32 field still zero.
pub open spec fn spec_header_nocrc(h: Header) -> Seq<u8> {
    spec_hv_nocrc(
        h.this_lba,
        h.alt_lba,
        h.first_usable,
        h.last_usable,
        h.disk_guid@,
        h.array_start,
        h.partitions,
        h.entry_size,
        h.partitions_crc32,
    )
}

/// The 92 header bytes as written to disk: the CRC32 of the zero-CRC
/// form, spliced into offset 16.
pub open spec fn spec_header_bytes(h: Header) -> Seq<u8> {
    spec_splice(
        spec_header_nocrc(h),
        16,
        spec_u32_to_le_bytes(crc32_of(spec_header_nocrc(h))),
    )
}

/// The two formulations of the on-disk header bytes agree.
pub proof fn lemma_header_bytes_hv(h: Header)
    ensures
        spec_header_bytes(h) == spec_hv_bytes(
            h.this_lba,
            h.alt_lba,
            h.first_usable,
            h.last_usable,
            h.disk_guid@,
            h.array_start,
            h.partitions,
            h.entry_size,
            h.partitions_crc32,
        ),
{
}

/// The `header_size` field of a header block.
pub open spec fn spec_hdr_size(b: Seq<u8>) -> u32 {
    spec_u32_from_le_bytes(b.subrange(12, 16))
}

/// Whether the signature fields hold `"EFI PART"`.
pub open spec fn spec_hdr_sig_ok(b: Seq<u8>) -> bool {
    &&& spec_u32_from_le_bytes(b.subrange(0, 4)) == SIGNATURE_LO
    &&& spec_u32_from_le_bytes(b.subrange(4, 8)) == SIGNATURE_HI
}

/// Whether the revision field holds [`REVISION`].
pub open spec fn spec_hdr_rev_ok(b: Seq<u8>) -> bool {
    spec_u32_from_le_bytes(b.subrange(8, 12)) == REVISION
}

/// Whether `header_size` lies between 92 and the block size.
pub open spec fn spec_hdr_size_ok(b: Seq<u8>, bs: u64) -> bool {
    92 <= spec_hdr_size(b) && spec_hdr_size(b) <= bs
}

/// Whether an entry size is 128 times a power of two.
pub open spec fn spec_entry_size_ok(e: u32) -> bool {
    e >= 128 && (e & (e - 1) as u32) == 0u32
}

/// Whether the partition-entry-size field is 128 times a power of two.
pub open spec fn spec_hdr_esize_ok(b: Seq<u8>) -> bool {
    spec_entry_size_ok(spec_u32_from_le_bytes(b.subrange(84, 88)))
}

/// Whether the stored header CRC32 equals the CRC32 of the first
/// `header_size` bytes with the CRC field zeroed.
pub open spec fn spec_hdr_crc_ok(b: Seq<u8>) -> bool {
    crc32_of(
        spec_splice(
            b.take(spec_hdr_size(b) as int),
            16,
            spec_u32_to_le_bytes(0u32),
        ),
    ) == spec_u32_from_le_bytes(b.subrange(16, 20))
}

/// Whether the `this_lba` field equals the block the header was read from.
pub open spec fn spec_hdr_loc_ok(b: Seq<u8>, expected_lba: u64) -> bool {
    spec_u64_from_le_bytes(b.subrange(24, 32)) == expected_lba
}

/// Whether a header block passes every validation step.
pub open spec fn spec_header_ok(b: Seq<u8>, bs: u64, expected_lba: u64) -> bool {
    &&& spec_hdr_sig_ok(b)
    &&& spec_hdr_rev_ok(b)
    &&& spec_hdr_size_ok(b, bs)
    &&& spec_hdr_esize_ok(b)
    &&& spec_hdr_crc_ok(b)
    &&& spec_hdr_loc_ok(b, expected_lba)
}

/// The error that reading an invalid header block reports, following the
/// validation order: signature, revision, sizes, CRC, location.
pub open spec fn spec_header_err(b: Seq<u8>, bs: u64, expected_lba: u64) -> Error {
    if !spec_hdr_sig_ok(b) {
        Error::InvalidSignature
    } else if !spec_hdr_rev_ok(b) {
        Error::InvalidRevision
    } else if !(spec_hdr_size_ok(b, bs) && spec_hdr_esize_ok(b)) {
        Error::InvalidHeaderSize
    } else if !spec_hdr_crc_ok(b) {
        Error::BadHeaderCrc
    } else {
        Error::WrongLocation
    }
}

/// The `this_lba` field of a header block.
pub open spec fn spec_hdr_this(b: Seq<u8>) -> u64 {
    spec_u64_from_le_bytes(b.subrange(24, 32))
}

/// The `alt_lba` field of a header block.
pub open spec fn spec_hdr_alt(b: Seq<u8>) -> u64 {
    spec_u64_from_le_bytes(b.subrange(32, 40))
}

/// The `first_usable_lba` field of a header block.
pub open spec fn spec_hdr_fu(b: Seq<u8>) -> u64 {
    spec_u64_from_le_bytes(b.subrange(40, 48))
}

/// The `last_usable_lba` field of a header block.
pub open spec fn spec_hdr_lu(b: Seq<u8>) -> u64 {
    spec_u64_from_le_bytes(b.subrange(48, 56))
}

/// The disk GUID of a header block, as RFC 4122 bytes.
pub open spec fn spec_hdr_guid(b: Seq<u8>) -> Seq<u8> {
    spec_me_swap(b.subrange(56, 72))
}

/// The `partition_array_start` field of a header block.
pub open spec fn spec_hdr_array_start(b: Seq<u8>) -> u64 {
    spec_u64_from_le_bytes(b.subrange(72, 80))
}

/// The partition-count field of a header block.
pub open spec fn spec_hdr_count(b: Seq<u8>) -> u32 {
    spec_u32_from_le_bytes(b.subrange(80, 84))
}

/// The partition-entry-size field of a header block.
pub open spec fn spec_hdr_esize(b: Seq<u8>) -> u32 {
    spec_u32_from_le_bytes(b.subrange(84, 88))
}

/// The partition-array CRC32 field of a header block.
pub open spec fn spec_hdr_pcrc(b: Seq<u8>) -> u32 {
    spec_u32_from_le_bytes(b.subrange(88, 92))
}

/// Whether `h` holds exactly the fields stored in the header block `b`.
pub open spec fn spec_header_matches(h: Header, b: Seq<u8>) -> bool {
    &&& h.this_lba == spec_hdr_this(b)
    &&& h.alt_lba == spec_hdr_alt(b)
    &&& h.first_usable == spec_hdr_fu(b)
    &&& h.last_usable == spec_hdr_lu(b)
    &&& h.disk_guid@ == spec_hdr_guid(b)
    &&& h.array_start == spec_hdr_array_start(b)
    &&& h.partitions == spec_hdr_count(b)
    &&& h.entry_size == spec_hdr_esize(b)
    &&& h.partitions_crc32 == spec_hdr_pcrc(b)
}

impl Header {
    /// Construct the header for one of the two roles.
    ///
    /// The usable range is derived from the geometry: the reserved array
    /// occupies `array_blocks` whole blocks, the last usable block leaves
    /// room for the backup array and header, and the first usable block
    /// is either 2048 (optimal alignment) or right after the primary
    /// array (minimal).
    pub fn new(
        kind: HeaderKind,
        align: Align,
        partitions_crc32: u32,
        partitions: u32,
        disk_guid: Guid,
        entry_size: u32,
        disk_size: u64,
        block_size: u64,
    ) -> (r: Header)
        requires
            spec_valid_block_size(block_size),
            disk_size >= 2 * block_size,
            partitions as int * entry_size as int + block_size as int <= u64::MAX,
            block_size as int + 16384 <= u64::MAX,
            spec_last_lba(disk_size, block_size) >= spec_array_blocks(
                partitions as int,
                entry_size as int,
                block_size,
            ) + 2,
        ensures
            ({
                let last = spec_last_lba(disk_size, block_size);
                let ab = spec_array_blocks(partitions as int, entry_size as int, block_size);
                &&& r.this_lba == (match kind {
                    HeaderKind::Primary => 1,
                    HeaderKind::Backup => last,
                })
                &&& r.alt_lba == (match kind {
                    HeaderKind::Primary => last,
                    HeaderKind::Backup => 1,
                })
                &&& r.first_usable == (match align {
                    Align::Optimal => 2048,
                    Align::Minimal => ab + 2,
                })
                &&& r.last_usable == last - ab - 1
                &&& r.disk_guid == disk_guid
                &&& r.array_start == (match kind {
                    HeaderKind::Primary => 2,
                    HeaderKind::Backup => last - ab,
                })
                &&& r.partitions == partitions
                &&& r.entry_size == entry_size
                &&& r.partitions_crc32 == partitions_crc32
            }),
    {
        proof {
            assert(disk_size as int / block_size as int >= 2) by (nonlinear_arith)
                requires
                    block_size >= 512,
                    disk_size >= 2 * block_size,
            ;
        }
        let last = disk_size / block_size - 1;
        let ab = array_blocks(partitions, entry_size, block_size);
        let last_usable = last - ab - 1;
        let first_usable = match align {
            Align::Optimal => 2048u64,
            Align::Minimal => ab + 2,
        };
        let (this_lba, alt_lba, array_start) = match kind {
            HeaderKind::Primary => (1u64, last, 2u64),
            HeaderKind::Backup => (last, 1u64, last_usable + 1),
        };
        Header {
            this_lba,
            alt_lba,
            first_usable,
            last_usable,
            disk_guid,
            array_start,
            partitions,
            entry_size,
            partitions_crc32,
        }
    }

    /// Read and validate a header from one block.
    ///
    /// Succeeds exactly on blocks that [`spec_header_ok`] admits; on
    /// failure the error names the first validation step that failed,
    /// as [`spec_header_err`] states.
    pub fn read(source: &[u8], block_size: u64, expected_lba: u64) -> (r: Result<Header, Error>)
        requires
            source@.len() == block_size,
            block_size >= 92,
        ensures
            r is Ok <==> spec_header_ok(source@, block_size, expected_lba),
            r matches Ok(h) ==> spec_header_matches(h, source@),
            r matches Err(e) ==> e == spec_header_err(source@, block_size, expected_lba),
    {
        let n = source.len();
        let sig_lo = read_u32_le(source, 0);
        let sig_hi = read_u32_le(source, 4);
        if sig_lo != SIGNATURE_LO || sig_hi != SIGNATURE_HI {
            return Err(Error::InvalidSignature);
        }
        let revision = read_u32_le(source, 8);
        if revision != REVISION {
            return Err(Error::InvalidRevision);
        }
        let header_size = read_u32_le(source, 12);
        if header_size < HEADER_SIZE || (header_size as u64) > block_size {
            return Err(Error::InvalidHeaderSize);
        }
        let entry_size = read_u32_le(source, 84);
        if entry_size < 128 || (entry_size & (entry_size - 1)) != 0 {
            return Err(Error::InvalidHeaderSize);
        }
        let stored_crc = read_u32_le(source, 16);
        let mut prefix = slice_to_vec(slice_subrange(source, 0, header_size as usize));
        let zero = u32_to_le_bytes(0u32);
        write_bytes_at(&mut prefix, 16, zero.as_slice());
        let computed = crc32(prefix.as_slice());
        if computed != stored_crc {
            return Err(Error::BadHeaderCrc);
        }
        let this_lba = read_u64_le(source, 24);
        if this_lba != expected_lba {
            return Err(Error::WrongLocation);
        }
        let alt_lba = read_u64_le(source, 32);
        let first_usable = read_u64_le(source, 40);
        let last_usable = read_u64_le(source, 48);
        let disk_guid = Guid::from_gpt_bytes(slice_subrange(source, 56, 72));
        let array_start = read_u64_le(source, 72);
        let partitions = read_u32_le(source, 80);
        let partitions_crc32 = read_u32_le(source, 88);
        Ok(
            Header {
                this_lba,
                alt_lba,
                first_usable,
                last_usable,
                disk_guid,
                array_start,
                partitions,
                entry_size,
                partitions_crc32,
            },
        )
    }

    /// Serialize this header into its 92 on-disk bytes, computing and
    /// patching in the header CRC32.
    pub fn write(&self) -> (r: Vec<u8>)
        ensures
            r@ == spec_header_bytes(*self),
            r@.len() == 92,
    {
        let mut out: Vec<u8> = Vec::new();
        push_u32_le(&mut out, SIGNATURE_LO);
        push_u32_le(&mut out, SIGNATURE_HI);
        push_u32_le(&mut out, REVISION);
        push_u32_le(&mut out, HEADER_SIZE);
        push_u32_le(&mut out, 0u32);
        push_u32_le(&mut out, 0u32);
        push_u64_le(&mut out, self.this_lba);
        push_u64_le(&mut out, self.alt_lba);
        push_u64_le(&mut out, self.first_usable);
        push_u64_le(&mut out, self.last_usable);
        self.disk_guid.push_gpt_bytes(&mut out);
        push_u64_le(&mut out, self.array_start);
        push_u32_le(&mut out, self.partitions);
        push_u32_le(&mut out, self.entry_size);
        push_u32_le(&mut out, self.partitions_crc32);
        proof {
            lemma_le_bytes_lens();
            assert(out@ =~= spec_header_nocrc(*self));
        }
        let crc = crc32(out.as_slice());
        let crc_bytes = u32_to_le_bytes(crc);
        write_bytes_at(&mut out, 16, crc_bytes.as_slice());
        proof {
            lemma_le_bytes_lens();
        }
        out
    }

    /// The disk GUID stored in this header.
    pub fn uuid(&self) -> (r: Guid)
        ensures
            r == self.disk_guid,
    {
        self.disk_guid
    }
}

/// The header CRC32 depends only on the first `header_size` bytes with
/// the CRC field zeroed: two header blocks of equal `header_size` that
/// agree on those bytes outside the CRC field have the same computed
/// CRC.
pub proof fn lemma_header_crc_determined(a: Seq<u8>, b: Seq<u8>)
    requires
        a.len() >= spec_hdr_size(a),
        b.len() >= spec_hdr_size(b),
        spec_hdr_size(a) == spec_hdr_size(b),
        92 <= spec_hdr_size(a),
        forall|j: int|
            0 <= j < spec_hdr_size(a) && !(16 <= j < 20) ==> a[j] == b[j],
    ensures
        crc32_of(spec_splice(a.take(spec_hdr_size(a) as int), 16, spec_u32_to_le_bytes(0u32)))
            == crc32_of(
            spec_splice(b.take(spec_hdr_size(b) as int), 16, spec_u32_to_le_bytes(0u32)),
        ),
{
    lemma_auto_spec_u32_to_from_le_bytes();
    assert(spec_splice(a.take(spec_hdr_size(a) as int), 16, spec_u32_to_le_bytes(0u32))
        =~= spec_splice(b.take(spec_hdr_size(b) as int), 16, spec_u32_to_le_bytes(0u32)));
}

/// The lengths of the little-endian byte encodings.
proof fn lemma_le_bytes_lens()
    ensures
        forall|x: u32| (#[trigger] spec_u32_to_le_bytes(x)).len() == 4,
        forall|x: u64| (#[trigger] spec_u64_to_le_bytes(x)).len() == 8,
{
    lemma_auto_spec_u32_to_from_le_bytes();
    lemma_auto_spec_u64_to_from_le_bytes();
}

/// The header round-trip law over plain fields: a 92-byte header
/// serialization placed at the front of a block passes every validation
/// check at the block the header names, and each field reads back.
pub proof fn lemma_hv_roundtrip(
    this_lba: u64,
    alt_lba: u64,
    first_usable: u64,
    last_usable: u64,
    disk_guid: Seq<u8>,
    array_start: u64,
    partitions: u32,
    entry_size: u32,
    partitions_crc32: u32,
    b: Seq<u8>,
    bs: u64,
)
    requires
        disk_guid.len() == 16,
        spec_entry_size_ok(entry_size),
        spec_valid_block_size(bs),
        b.len() == bs,
        b.take(92) == spec_hv_bytes(
            this_lba,
            alt_lba,
            first_usable,
            last_usable,
            disk_guid,
            array_start,
            partitions,
            entry_size,
            partitions_crc32,
        ),
    ensures
        spec_header_ok(b, bs, this_lba),
        spec_hdr_this(b) == this_lba,
        spec_hdr_alt(b) == alt_lba,
        spec_hdr_fu(b) == first_usable,
        spec_hdr_lu(b) == last_usable,
        spec_hdr_guid(b) == disk_guid,
        spec_hdr_array_start(b) == array_start,
        spec_hdr_count(b) == partitions,
        spec_hdr_esize(b) == entry_size,
        spec_hdr_pcrc(b) == partitions_crc32,
{
    lemma_auto_spec_u32_to_from_le_bytes();
    lemma_auto_spec_u64_to_from_le_bytes();
    let nc = spec_hv_nocrc(
        this_lba,
        alt_lba,
        first_usable,
        last_usable,
        disk_guid,
        array_start,
        partitions,
        entry_size,
        partitions_crc32,
    );
    let hb = spec_hv_bytes(
        this_lba,
        alt_lba,
        first_usable,
        last_usable,
        disk_guid,
        array_start,
        partitions,
        entry_size,
        partitions_crc32,
    );
    assert(nc.len() == 92);
    assert(hb.len() == 92);
    assert(forall|j: int| 0 <= j < 92 && !(16 <= j < 20) ==> hb[j] == nc[j]);
    assert(forall|j: int| 0 <= j < 92 ==> b[j] == hb[j]);
    assert(b.subrange(0, 4) =~= spec_u32_to_le_bytes(SIGNATURE_LO));
    assert(b.subrange(4, 8) =~= spec_u32_to_le_bytes(SIGNATURE_HI));
    assert(b.subrange(8, 12) =~= spec_u32_to_le_bytes(REVISION));
    assert(b.subrange(12, 16) =~= spec_u32_to_le_bytes(HEADER_SIZE));
    assert(spec_hdr_size(b) == 92);
    assert(b.subrange(16, 20) =~= spec_u32_to_le_bytes(crc32_of(nc)));
    assert(b.subrange(24, 32) =~= spec_u64_to_le_bytes(this_lba));
    assert(b.subrange(32, 40) =~= spec_u64_to_le_bytes(alt_lba));
    assert(b.subrange(40, 48) =~= spec_u64_to_le_bytes(first_usable));
    assert(b.subrange(48, 56) =~= spec_u64_to_le_bytes(last_usable));
    assert(b.subrange(56, 72) =~= spec_me_swap(disk_guid));
    assert(b.subrange(72, 80) =~= spec_u64_to_le_bytes(array_start));
    assert(b.subrange(80, 84) =~= spec_u32_to_le_bytes(partitions));
    assert(b.subrange(84, 88) =~= spec_u32_to_le_bytes(entry_size));
    assert(b.subrange(88, 92) =~= spec_u32_to_le_bytes(partitions_crc32));
    assert(spec_splice(b.take(92), 16, spec_u32_to_le_bytes(0u32)) =~= nc);
    assert(spec_hdr_crc_ok(b));
    crate::guid::lemma_me_swap_involution(disk_guid);
}

/// The 92-byte length of a serialized header.
pub proof fn lemma_hv_bytes_len(
    this_lba: u64,
    alt_lba: u64,
    first_usable: u64,
    last_usable: u64,
    disk_guid: Seq<u8>,
    array_start: u64,
    partitions: u32,
    entry_size: u32,
    partitions_crc32: u32,
)
    requires
        disk_guid.len() == 16,
    ensures
        spec_hv_bytes(
            this_lba,
            alt_lba,
            first_usable,
            last_usable,
            disk_guid,
            array_start,
            partitions,
            entry_size,
            partitions_crc32,
        ).len() == 92,
{
    lemma_auto_spec_u32_to_from_le_bytes();
    lemma_auto_spec_u64_to_from_le_bytes();
}

/// The header round-trip law: a header whose entry size is valid
/// serializes to 92 bytes that pass every validation check when read
/// back at the block the header says it lives in, and parsing those
/// bytes recovers every field of the header.  The recomputed CRC equals
/// the stored CRC by construction.
pub proof fn lemma_header_roundtrip(h: Header, b: Seq<u8>, bs: u64)
    requires
        spec_entry_size_ok(h.entry_size),
        spec_valid_block_size(bs),
        b.len() == bs,
        b.take(92) == spec_header_bytes(h),
    ensures
        spec_header_bytes(h).len() == 92,
        spec_header_ok(b, bs, h.this_lba),
        spec_header_matches(h, b),
{
    lemma_auto_spec_u32_to_from_le_bytes();
    lemma_auto_spec_u64_to_from_le_bytes();
    let nc = spec_header_nocrc(h);
    let hb = spec_header_bytes(h);
    assert(nc.len() == 92);
    assert(hb.len() == 92);
    assert(forall|j: int| 0 <= j < 92 && !(16 <= j < 20) ==> hb[j] == nc[j]);
    assert(forall|j: int| 0 <= j < 92 ==> b[j] == hb[j]);
    // field subranges of the spliced bytes equal those of the zero-CRC form
    assert(b.subrange(0, 4) =~= spec_u32_to_le_bytes(SIGNATURE_LO));
    assert(b.subrange(4, 8) =~= spec_u32_to_le_bytes(SIGNATURE_HI));
    assert(b.subrange(8, 12) =~= spec_u32_to_le_bytes(REVISION));
    assert(b.subrange(12, 16) =~= spec_u32_to_le_bytes(HEADER_SIZE));
    assert(spec_hdr_size(b) == 92);
    assert(b.subrange(16, 20) =~= spec_u32_to_le_bytes(crc32_of(nc)));
    assert(b.subrange(24, 32) =~= spec_u64_to_le_bytes(h.this_lba));
    assert(b.subrange(32, 40) =~= spec_u64_to_le_bytes(h.alt_lba));
    assert(b.subrange(40, 48) =~= spec_u64_to_le_bytes(h.first_usable));
    assert(b.subrange(48, 56) =~= spec_u64_to_le_bytes(h.last_usable));
    assert(b.subrange(56, 72) =~= spec_me_swap(h.disk_guid@));
    assert(b.subrange(72, 80) =~= spec_u64_to_le_bytes(h.array_start));
    assert(b.subrange(80, 84) =~= spec_u32_to_le_bytes(h.partitions));
    assert(b.subrange(84, 88) =~= spec_u32_to_le_bytes(h.entry_size));
    assert(b.subrange(88, 92) =~= spec_u32_to_le_bytes(h.partitions_crc32));
    // zeroing the CRC field of the written bytes gives back the zero-CRC form
    assert(spec_splice(b.take(92), 16, spec_u32_to_le_bytes(0u32)) =~= nc);
    assert(spec_hdr_crc_ok(b));
    // the mixed-endian GUID encoding reads back to the same GUID
    crate::guid::lemma_me_swap_involution(h.disk_guid@);
}

} // verus!
