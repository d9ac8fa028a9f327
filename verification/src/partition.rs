//! 128-byte GPT partition entries, the partition-entry array, and the
//! registry of well-known partition-type GUIDs.

use vstd::prelude::*;
use vstd::bytes::*;
use vstd::slice::slice_subrange;
use crate::codec::{push_u16_le, push_u64_le, read_u16_le, read_u64_le};
use crate::geometry::spec_valid_block_size;
use crate::guid::{lemma_guid_view_len, spec_me_swap, spec_zero_guid, Guid};
use crate::Error;

verus! {

broadcast use lemma_guid_view_len;

/// The size in bytes of one partition entry.
pub const PARTITION_ENTRY_SIZE: u32 = 128;

/// The ghost form of a partition entry.
#[verifier::ext_equal]
pub struct PartitionView {
    /// Partition type GUID bytes (RFC 4122 order); all zero means unused.
    pub type_guid: Seq<u8>,
    /// This partition's own GUID bytes (RFC 4122 order).
    pub guid: Seq<u8>,
    /// First logical block of the partition.
    pub start_lba: u64,
    /// Last logical block of the partition (inclusive).
    pub end_lba: u64,
    /// Attribute flags.
    pub attributes: u64,
    /// UTF-16LE name code units, trailing NUL units trimmed.
    pub name: Seq<u16>,
}

/// A used partition entry.
#[derive(Clone, Debug, PartialEq, Eq)]
pub struct Partition {
    type_guid: Guid,
    guid: Guid,
    start_lba: u64,
    end_lba: u64,
    attributes: u64,
    name: Vec<u16>,
}

impl View for Partition {
    type V = PartitionView;

    closed spec fn view(&self) -> PartitionView {
        PartitionView {
            type_guid: self.type_guid@,
            guid: self.guid@,
            start_lba: self.start_lba,
            end_lba: self.end_lba,
            attributes: self.attributes,
            name: self.name@,
        }
    }
}

/// Structural soundness of a partition entry: GUIDs of sixteen bytes and
/// a name of at most 36 code units with no trailing NUL unit (the
/// NUL-padded name field cannot distinguish trailing NULs from padding).
pub open spec fn spec_pv_wf(pv: PartitionView) -> bool {
    &&& pv.type_guid.len() == 16
    &&& pv.guid.len() == 16
    &&& pv.name.len() <= 36
    &&& pv.name.len() > 0 ==> pv.name.last() != 0u16
}

/// Whether the entry is used: its type GUID is not all zero.
pub open spec fn spec_pv_used(pv: PartitionView) -> bool {
    pv.type_guid != spec_zero_guid()
}

/// The UTF-16LE bytes of a sequence of code units.
pub open spec fn spec_utf16le_bytes(units: Seq<u16>) -> Seq<u8>
    decreases units.len(),
{
    if units.len() == 0 {
        Seq::<u8>::empty()
    } else {
        spec_u16_to_le_bytes(units[0]) + spec_utf16le_bytes(units.drop_first())
    }
}

/// `units` padded with NUL units to 36 entries.
pub open spec fn spec_pad_units(units: Seq<u16>) -> Seq<u16>
    recommends
        units.len() <= 36,
{
    units + Seq::new((36 - units.len()) as nat, |i: int| 0u16)
}

/// The 128 on-disk bytes of a partition entry.
pub open spec fn spec_entry_bytes(pv: PartitionView) -> Seq<u8>
    recommends
        spec_pv_wf(pv),
{
    spec_me_swap(pv.type_guid) + spec_me_swap(pv.guid) + spec_u64_to_le_bytes(pv.start_lba)
        + spec_u64_to_le_bytes(pv.end_lba) + spec_u64_to_le_bytes(pv.attributes)
        + spec_utf16le_bytes(spec_pad_units(pv.name))
}

/// Code unit `k` of the name field of entry bytes `b`.
pub open spec fn spec_name_unit(b: Seq<u8>, k: int) -> u16 {
    spec_u16_from_le_bytes(b.subrange(56 + 2 * k, 58 + 2 * k))
}

/// The 36 name code units stored in entry bytes `b`.
pub open spec fn spec_name_units(b: Seq<u8>) -> Seq<u16> {
    Seq::new(36, |k: int| spec_name_unit(b, k))
}

/// `s` with its trailing NUL units removed.
pub open spec fn spec_trim_nuls(s: Seq<u16>) -> Seq<u16>
    decreases s.len(),
{
    if s.len() > 0 && s.last() == 0u16 {
        spec_trim_nuls(s.drop_last())
    } else {
        s
    }
}

/// The partition entry stored in 128 entry bytes.
pub open spec fn spec_parse_entry(b: Seq<u8>) -> PartitionView {
    PartitionView {
        type_guid: spec_me_swap(b.subrange(0, 16)),
        guid: spec_me_swap(b.subrange(16, 32)),
        start_lba: spec_u64_from_le_bytes(b.subrange(32, 40)),
        end_lba: spec_u64_from_le_bytes(b.subrange(40, 48)),
        attributes: spec_u64_from_le_bytes(b.subrange(48, 56)),
        name: spec_trim_nuls(spec_name_units(b)),
    }
}

/// The length of the UTF-16LE encoding: two bytes per unit.
proof fn lemma_utf16le_len(units: Seq<u16>)
    ensures
        spec_utf16le_bytes(units).len() == 2 * units.len(),
    decreases units.len(),
{
    lemma_auto_spec_u16_to_from_le_bytes();
    if units.len() > 0 {
        lemma_utf16le_len(units.drop_first());
    }
}

/// Appending one unit appends its two bytes.
proof fn lemma_utf16le_snoc(units: Seq<u16>)
    requires
        units.len() > 0,
    ensures
        spec_utf16le_bytes(units) == spec_utf16le_bytes(units.drop_last())
            + spec_u16_to_le_bytes(units.last()),
    decreases units.len(),
{
    lemma_auto_spec_u16_to_from_le_bytes();
    if units.len() == 1 {
        assert(units.drop_first() =~= Seq::<u16>::empty());
        assert(units.drop_last() =~= Seq::<u16>::empty());
        assert(spec_utf16le_bytes(Seq::<u16>::empty()) == Seq::<u8>::empty());
        assert(units.last() == units[0]);
        assert(spec_utf16le_bytes(units) =~= spec_utf16le_bytes(units.drop_last())
            + spec_u16_to_le_bytes(units.last()));
    } else {
        let rest = units.drop_first();
        lemma_utf16le_snoc(rest);
        assert(rest.drop_last() =~= units.drop_last().drop_first());
        assert(rest.last() == units.last());
        assert(spec_utf16le_bytes(units.drop_last()) == spec_u16_to_le_bytes(units[0])
            + spec_utf16le_bytes(units.drop_last().drop_first()));
        assert(spec_utf16le_bytes(units) =~= spec_utf16le_bytes(units.drop_last())
            + spec_u16_to_le_bytes(units.last()));
    }
}

/// Byte pair `k` of the UTF-16LE encoding holds unit `k`.
proof fn lemma_utf16le_index(units: Seq<u16>, k: int)
    requires
        0 <= k < units.len(),
    ensures
        spec_utf16le_bytes(units).subrange(2 * k, 2 * k + 2) == spec_u16_to_le_bytes(units[k]),
    decreases units.len(),
{
    lemma_auto_spec_u16_to_from_le_bytes();
    lemma_utf16le_len(units);
    if k == 0 {
        assert(spec_utf16le_bytes(units).subrange(0, 2) =~= spec_u16_to_le_bytes(units[0]));
    } else {
        let rest = units.drop_first();
        lemma_utf16le_index(rest, k - 1);
        lemma_utf16le_len(rest);
        assert(spec_utf16le_bytes(units).subrange(2 * k, 2 * k + 2) =~= spec_utf16le_bytes(
            rest,
        ).subrange(2 * (k - 1), 2 * (k - 1) + 2));
    }
}

/// Trimming NUL padding from a trimmed sequence gives it back.
proof fn lemma_trim_pad(units: Seq<u16>, padded: Seq<u16>)
    requires
        units.len() == 0 || units.last() != 0u16,
        padded.len() >= units.len(),
        forall|i: int| 0 <= i < units.len() ==> padded[i] == units[i],
        forall|i: int| units.len() <= i < padded.len() ==> padded[i] == 0u16,
    ensures
        spec_trim_nuls(padded) == units,
    decreases padded.len(),
{
    if padded.len() > units.len() {
        assert(padded.last() == 0u16);
        lemma_trim_pad(units, padded.drop_last());
    } else {
        assert(padded =~= units);
    }
}

impl Partition {
    /// The unused sentinel entry: every field zero, an empty name.
    pub fn new() -> (r: Partition)
        ensures
            r@.type_guid == spec_zero_guid(),
            r@.guid == spec_zero_guid(),
            r@.start_lba == 0 && r@.end_lba == 0 && r@.attributes == 0,
            r@.name == Seq::<u16>::empty(),
            spec_pv_wf(r@),
            !spec_pv_used(r@),
    {
        Partition {
            type_guid: Guid::zero(),
            guid: Guid::zero(),
            start_lba: 0,
            end_lba: 0,
            attributes: 0,
            name: Vec::new(),
        }
    }

    /// This partition's own GUID.
    pub fn uuid(&self) -> (r: Guid)
        ensures
            r@ == self@.guid,
    {
        self.guid
    }

    /// This partition's type GUID.
    pub fn type_uuid(&self) -> (r: Guid)
        ensures
            r@ == self@.type_guid,
    {
        self.type_guid
    }

    /// First logical block.
    pub fn start_lba(&self) -> (r: u64)
        ensures
            r == self@.start_lba,
    {
        self.start_lba
    }

    /// Last logical block (inclusive).
    pub fn end_lba(&self) -> (r: u64)
        ensures
            r == self@.end_lba,
    {
        self.end_lba
    }

    /// Attribute flags.
    pub fn attributes(&self) -> (r: u64)
        ensures
            r == self@.attributes,
    {
        self.attributes
    }

    /// The name's UTF-16LE code units, trailing NULs trimmed.
    pub fn name_units(&self) -> (r: &Vec<u16>)
        ensures
            r@ == self@.name,
    {
        &self.name
    }

    /// Decode a partition entry from its 128 bytes.  Every stored byte
    /// is kept (the name verbatim, NUL padding trimmed), so re-encoding
    /// a used entry reproduces the input exactly.
    pub fn from_bytes(source: &[u8]) -> (r: Partition)
        requires
            source@.len() == 128,
        ensures
            r@ == spec_parse_entry(source@),
            spec_pv_wf(r@),
    {
        let type_guid = Guid::from_gpt_bytes(slice_subrange(source, 0, 16));
        let guid = Guid::from_gpt_bytes(slice_subrange(source, 16, 32));
        let start_lba = read_u64_le(source, 32);
        let end_lba = read_u64_le(source, 40);
        let attributes = read_u64_le(source, 48);
        let mut name: Vec<u16> = Vec::new();
        let mut k: usize = 0;
        while k < 36
            invariant
                k <= 36,
                source@.len() == 128,
                name@.len() == k,
                forall|i: int| 0 <= i < k ==> name@[i] == spec_name_unit(source@, i),
            decreases 36 - k,
        {
            let u = read_u16_le(source, 56 + 2 * k);
            proof {
                assert(source@.subrange(56 + 2 * k as int, 56 + 2 * k as int + 2)
                    =~= source@.subrange(56 + 2 * k as int, 58 + 2 * k as int));
            }
            name.push(u);
            k = k + 1;
        }
        proof {
            assert(name@ =~= spec_name_units(source@));
        }
        while name.len() > 0 && name[name.len() - 1] == 0u16
            invariant
                name@.len() <= 36,
                spec_trim_nuls(name@) == spec_trim_nuls(spec_name_units(source@)),
            decreases name@.len(),
        {
            proof {
                assert(name@.last() == 0u16);
            }
            name.pop();
        }
        proof {
            assert(name@ == spec_trim_nuls(name@));
        }
        let r = Partition { type_guid, guid, start_lba, end_lba, attributes, name };
        proof {
            assert(r@.name == spec_trim_nuls(spec_name_units(source@)));
            assert(r@ =~= spec_parse_entry(source@));
        }
        r
    }

    /// Whether this entry is used (its type GUID is not all zero).
    pub fn is_used(&self) -> (r: bool)
        ensures
            r == spec_pv_used(self@),
    {
        !self.type_guid.is_zero()
    }

    /// Append this entry's 128 on-disk bytes to `out`.
    pub fn push_bytes(&self, out: &mut Vec<u8>)
        requires
            spec_pv_wf(self@),
        ensures
            final(out)@ == old(out)@ + spec_entry_bytes(self@),
    {
        self.type_guid.push_gpt_bytes(out);
        self.guid.push_gpt_bytes(out);
        push_u64_le(out, self.start_lba);
        push_u64_le(out, self.end_lba);
        push_u64_le(out, self.attributes);
        let ghost mid = out@;
        let ghost padded = spec_pad_units(self@.name);
        let n = self.name.len();
        let mut k: usize = 0;
        while k < n
            invariant
                n == self.name@.len() <= 36,
                k <= n,
                padded == spec_pad_units(self@.name),
                self@.name == self.name@,
                out@ == mid + spec_utf16le_bytes(padded.take(k as int)),
            decreases n - k,
        {
            push_u16_le(out, self.name[k]);
            proof {
                lemma_utf16le_snoc(padded.take(k + 1));
                assert(padded.take(k + 1).drop_last() =~= padded.take(k as int));
                assert(padded.take(k + 1).last() == self.name@[k as int]);
            }
            k = k + 1;
        }
        while k < 36
            invariant
                n == self.name@.len() <= 36,
                n <= k <= 36,
                padded == spec_pad_units(self@.name),
                self@.name == self.name@,
                out@ == mid + spec_utf16le_bytes(padded.take(k as int)),
            decreases 36 - k,
        {
            push_u16_le(out, 0u16);
            proof {
                lemma_utf16le_snoc(padded.take(k + 1));
                assert(padded.take(k + 1).drop_last() =~= padded.take(k as int));
                assert(padded.take(k + 1).last() == 0u16);
            }
            k = k + 1;
        }
        proof {
            assert(padded.take(36) =~= padded);
            assert(out@ =~= old(out)@ + spec_entry_bytes(self@));
        }
    }

    /// The 128 on-disk bytes of this entry.
    pub fn to_bytes(&self) -> (r: Vec<u8>)
        requires
            spec_pv_wf(self@),
        ensures
            r@ == spec_entry_bytes(self@),
            r@.len() == 128,
    {
        let mut out: Vec<u8> = Vec::new();
        self.push_bytes(&mut out);
        proof {
            lemma_entry_bytes_len(self@);
        }
        out
    }
}

/// A partition entry's serialization is 128 bytes long.
proof fn lemma_entry_bytes_len(pv: PartitionView)
    requires
        spec_pv_wf(pv),
    ensures
        spec_entry_bytes(pv).len() == 128,
{
    lemma_auto_spec_u64_to_from_le_bytes();
    lemma_utf16le_len(spec_pad_units(pv.name));
}

/// The UTF-16 encoding of a string's characters.
pub uninterp spec fn utf16_of(s: Seq<char>) -> Seq<u16>;

/// Relies on `str::encode_utf16`: the UTF-16 code units are computed
/// from the string's characters alone.
#[verifier::external_body]
fn encode_utf16_units(s: &str) -> (r: Vec<u16>)
    ensures
        r@ == utf16_of(s@),
        s@.len() == 0 ==> r@.len() == 0,
{
    s.encode_utf16().collect()
}

/// The lossy decoding of UTF-16 code units into characters.
pub uninterp spec fn utf16_lossy_of(units: Seq<u16>) -> Seq<char>;

/// Relies on `String::from_utf16_lossy`: the characters are computed
/// from the code units alone.
#[verifier::external_body]
fn decode_utf16_lossy(units: &[u16]) -> (r: String)
    ensures
        r@ == utf16_lossy_of(units@),
{
    String::from_utf16_lossy(units)
}

/// The entry round-trip law: parsing the serialization of a well-formed
/// entry recovers the entry exactly.
pub proof fn lemma_entry_roundtrip(pv: PartitionView)
    requires
        spec_pv_wf(pv),
    ensures
        spec_parse_entry(spec_entry_bytes(pv)) == pv,
{
    lemma_auto_spec_u16_to_from_le_bytes();
    lemma_auto_spec_u64_to_from_le_bytes();
    lemma_entry_bytes_len(pv);
    let b = spec_entry_bytes(pv);
    let padded = spec_pad_units(pv.name);
    lemma_utf16le_len(padded);
    assert(b.subrange(0, 16) =~= spec_me_swap(pv.type_guid));
    assert(b.subrange(16, 32) =~= spec_me_swap(pv.guid));
    assert(b.subrange(32, 40) =~= spec_u64_to_le_bytes(pv.start_lba));
    assert(b.subrange(40, 48) =~= spec_u64_to_le_bytes(pv.end_lba));
    assert(b.subrange(48, 56) =~= spec_u64_to_le_bytes(pv.attributes));
    crate::guid::lemma_me_swap_involution(pv.type_guid);
    crate::guid::lemma_me_swap_involution(pv.guid);
    assert forall|k: int| 0 <= k < 36 implies spec_name_unit(b, k) == padded[k] by {
        lemma_utf16le_index(padded, k);
        assert(b.subrange(56 + 2 * k, 58 + 2 * k) =~= spec_utf16le_bytes(padded).subrange(
            2 * k,
            2 * k + 2,
        ));
    }
    assert(spec_name_units(b) =~= padded);
    lemma_trim_pad(pv.name, padded);
    assert(spec_parse_entry(b) =~= pv);
}

impl Partition {
    /// Set the attribute flags, leaving every other field as it is.
    pub fn set_attributes(&mut self, attributes: u64)
        ensures
            final(self)@ == (PartitionView { attributes, ..old(self)@ }),
    {
        self.attributes = attributes;
        proof {
            assert(self@ =~= PartitionView { attributes, ..old(self)@ });
        }
    }

    /// Replace the name, under the same encoding and length rule as
    /// [`PartitionBuilder::name`]: UTF-16, trailing NUL units trimmed,
    /// at most 36 code units.  On rejection the entry is unchanged.
    pub fn set_name(&mut self, name: &str) -> (r: Result<(), Error>)
        ensures
            r is Ok <==> spec_trim_nuls(utf16_of(name@)).len() <= 36,
            r is Ok ==> final(self)@ == (PartitionView {
                name: spec_trim_nuls(utf16_of(name@)),
                ..old(self)@
            }),
            r is Err ==> final(self)@ == old(self)@,
            r matches Err(e) ==> e == Error::NameTooLong,
            spec_pv_wf(old(self)@) ==> spec_pv_wf(final(self)@),
    {
        let mut units = encode_utf16_units(name);
        while units.len() > 0 && units[units.len() - 1] == 0u16
            invariant
                spec_trim_nuls(units@) == spec_trim_nuls(utf16_of(name@)),
            decreases units@.len(),
        {
            proof {
                assert(units@.last() == 0u16);
            }
            units.pop();
        }
        proof {
            assert(units@ == spec_trim_nuls(units@));
        }
        if units.len() > 36 {
            return Err(Error::NameTooLong);
        }
        self.name = units;
        proof {
            assert(self@ =~= PartitionView {
                name: spec_trim_nuls(utf16_of(name@)),
                ..old(self)@
            });
        }
        Ok(())
    }

    /// This partition's type, looked up in the registry of well-known
    /// type GUIDs; an unknown GUID passes through unchanged.
    pub fn partition_type(&self) -> (r: PartitionType)
        ensures
            spec_type_guid_bytes(r) == self@.type_guid,
            r is Unknown <==> !spec_known_type(self@.type_guid),
    {
        PartitionType::from_guid(self.type_guid)
    }

    /// The name decoded to characters, lossily: lone surrogates become
    /// replacement characters, while [`Partition::name_units`] keeps
    /// them verbatim.
    pub fn name(&self) -> (r: String)
        ensures
            r@ == utf16_lossy_of(self@.name),
    {
        decode_utf16_lossy(self.name.as_slice())
    }
}

/// Well-known partition types and their GUIDs.  Unknown type GUIDs pass
/// through unchanged as [`PartitionType::Unknown`].
#[derive(Clone, Copy, Debug, PartialEq, Eq)]
pub enum PartitionType {
    /// The all-zero type GUID of an unused entry.
    Unused,
    /// BIOS boot partition, `21686148-6449-6E6F-744E-656564454649`.
    BiosBoot,
    /// EFI System partition, `C12A7328-F81F-11D2-BA4B-00A0C93EC93B`.
    EfiSystem,
    /// Microsoft basic data, `EBD0A0A2-B9E5-4433-87C0-68B6B72699C7`.
    MicrosoftBasicData,
    /// Linux filesystem data, `0FC63DAF-8483-4772-8E79-3D69D8477DE4`.
    LinuxFilesystemData,
    /// Linux swap, `0657FD6D-A4AB-43C4-84E5-0933C84B4F4F`.
    LinuxSwap,
    /// Solaris and ZFS, `6A898CC3-1DD2-11B2-99A6-080020736631`.
    Zfs,
    /// Apple HFS+, `48465300-0000-11AA-AA11-00306543ECAC`.
    AppleHfsPlus,
    /// Any type GUID the registry does not know.
    Unknown(Guid),
}

/// The GUID bytes (RFC 4122 order) of a partition type.
pub open spec fn spec_type_guid_bytes(t: PartitionType) -> Seq<u8> {
    match t {
        PartitionType::Unused => spec_zero_guid(),
        PartitionType::BiosBoot => seq![
            0x21u8, 0x68u8, 0x61u8, 0x48u8, 0x64u8, 0x49u8, 0x6eu8, 0x6fu8,
            0x74u8, 0x4eu8, 0x65u8, 0x65u8, 0x64u8, 0x45u8, 0x46u8, 0x49u8,
        ],
        PartitionType::EfiSystem => seq![
            0xc1u8, 0x2au8, 0x73u8, 0x28u8, 0xf8u8, 0x1fu8, 0x11u8, 0xd2u8,
            0xbau8, 0x4bu8, 0x00u8, 0xa0u8, 0xc9u8, 0x3eu8, 0xc9u8, 0x3bu8,
        ],
        PartitionType::MicrosoftBasicData => seq![
            0xebu8, 0xd0u8, 0xa0u8, 0xa2u8, 0xb9u8, 0xe5u8, 0x44u8, 0x33u8,
            0x87u8, 0xc0u8, 0x68u8, 0xb6u8, 0xb7u8, 0x26u8, 0x99u8, 0xc7u8,
        ],
        PartitionType::LinuxFilesystemData => seq![
            0x0fu8, 0xc6u8, 0x3du8, 0xafu8, 0x84u8, 0x83u8, 0x47u8, 0x72u8,
            0x8eu8, 0x79u8, 0x3du8, 0x69u8, 0xd8u8, 0x47u8, 0x7du8, 0xe4u8,
        ],
        PartitionType::LinuxSwap => seq![
            0x06u8, 0x57u8, 0xfdu8, 0x6du8, 0xa4u8, 0xabu8, 0x43u8, 0xc4u8,
            0x84u8, 0xe5u8, 0x09u8, 0x33u8, 0xc8u8, 0x4bu8, 0x4fu8, 0x4fu8,
        ],
        PartitionType::Zfs => seq![
            0x6au8, 0x89u8, 0x8cu8, 0xc3u8, 0x1du8, 0xd2u8, 0x11u8, 0xb2u8,
            0x99u8, 0xa6u8, 0x08u8, 0x00u8, 0x20u8, 0x73u8, 0x66u8, 0x31u8,
        ],
        PartitionType::AppleHfsPlus => seq![
            0x48u8, 0x46u8, 0x53u8, 0x00u8, 0x00u8, 0x00u8, 0x11u8, 0xaau8,
            0xaau8, 0x11u8, 0x00u8, 0x30u8, 0x65u8, 0x43u8, 0xecu8, 0xacu8,
        ],
        PartitionType::Unknown(g) => g@,
    }
}

/// Whether `b` is one of the registry's known type GUIDs (the unused
/// sentinel included).
pub open spec fn spec_known_type(b: Seq<u8>) -> bool {
    ||| b == spec_type_guid_bytes(PartitionType::Unused)
    ||| b == spec_type_guid_bytes(PartitionType::BiosBoot)
    ||| b == spec_type_guid_bytes(PartitionType::EfiSystem)
    ||| b == spec_type_guid_bytes(PartitionType::MicrosoftBasicData)
    ||| b == spec_type_guid_bytes(PartitionType::LinuxFilesystemData)
    ||| b == spec_type_guid_bytes(PartitionType::LinuxSwap)
    ||| b == spec_type_guid_bytes(PartitionType::Zfs)
    ||| b == spec_type_guid_bytes(PartitionType::AppleHfsPlus)
}

impl PartitionType {
    /// The GUID of this partition type.
    pub fn to_guid(&self) -> (r: Guid)
        ensures
            r@ == spec_type_guid_bytes(*self),
    {
        match self {
            PartitionType::Unused => Guid::zero(),
            PartitionType::BiosBoot => {
                let b: [u8; 16] = [
                    0x21u8, 0x68u8, 0x61u8, 0x48u8, 0x64u8, 0x49u8, 0x6eu8, 0x6fu8,
                    0x74u8, 0x4eu8, 0x65u8, 0x65u8, 0x64u8, 0x45u8, 0x46u8, 0x49u8,
                ];
                proof {
                    assert(b@ =~= spec_type_guid_bytes(PartitionType::BiosBoot));
                }
                Guid::from_bytes(b.as_slice())
            },
            PartitionType::EfiSystem => {
                let b: [u8; 16] = [
                    0xc1u8, 0x2au8, 0x73u8, 0x28u8, 0xf8u8, 0x1fu8, 0x11u8, 0xd2u8,
                    0xbau8, 0x4bu8, 0x00u8, 0xa0u8, 0xc9u8, 0x3eu8, 0xc9u8, 0x3bu8,
                ];
                proof {
                    assert(b@ =~= spec_type_guid_bytes(PartitionType::EfiSystem));
                }
                Guid::from_bytes(b.as_slice())
            },
            PartitionType::MicrosoftBasicData => {
                let b: [u8; 16] = [
                    0xebu8, 0xd0u8, 0xa0u8, 0xa2u8, 0xb9u8, 0xe5u8, 0x44u8, 0x33u8,
                    0x87u8, 0xc0u8, 0x68u8, 0xb6u8, 0xb7u8, 0x26u8, 0x99u8, 0xc7u8,
                ];
                proof {
                    assert(b@ =~= spec_type_guid_bytes(PartitionType::MicrosoftBasicData));
                }
                Guid::from_bytes(b.as_slice())
            },
            PartitionType::LinuxFilesystemData => {
                let b: [u8; 16] = [
                    0x0fu8, 0xc6u8, 0x3du8, 0xafu8, 0x84u8, 0x83u8, 0x47u8, 0x72u8,
                    0x8eu8, 0x79u8, 0x3du8, 0x69u8, 0xd8u8, 0x47u8, 0x7du8, 0xe4u8,
                ];
                proof {
                    assert(b@ =~= spec_type_guid_bytes(PartitionType::LinuxFilesystemData));
                }
                Guid::from_bytes(b.as_slice())
            },
            PartitionType::LinuxSwap => {
                let b: [u8; 16] = [
                    0x06u8, 0x57u8, 0xfdu8, 0x6du8, 0xa4u8, 0xabu8, 0x43u8, 0xc4u8,
                    0x84u8, 0xe5u8, 0x09u8, 0x33u8, 0xc8u8, 0x4bu8, 0x4fu8, 0x4fu8,
                ];
                proof {
                    assert(b@ =~= spec_type_guid_bytes(PartitionType::LinuxSwap));
                }
                Guid::from_bytes(b.as_slice())
            },
            PartitionType::Zfs => {
                let b: [u8; 16] = [
                    0x6au8, 0x89u8, 0x8cu8, 0xc3u8, 0x1du8, 0xd2u8, 0x11u8, 0xb2u8,
                    0x99u8, 0xa6u8, 0x08u8, 0x00u8, 0x20u8, 0x73u8, 0x66u8, 0x31u8,
                ];
                proof {
                    assert(b@ =~= spec_type_guid_bytes(PartitionType::Zfs));
                }
                Guid::from_bytes(b.as_slice())
            },
            PartitionType::AppleHfsPlus => {
                let b: [u8; 16] = [
                    0x48u8, 0x46u8, 0x53u8, 0x00u8, 0x00u8, 0x00u8, 0x11u8, 0xaau8,
                    0xaau8, 0x11u8, 0x00u8, 0x30u8, 0x65u8, 0x43u8, 0xecu8, 0xacu8,
                ];
                proof {
                    assert(b@ =~= spec_type_guid_bytes(PartitionType::AppleHfsPlus));
                }
                Guid::from_bytes(b.as_slice())
            },
            PartitionType::Unknown(g) => *g,
        }
    }

    /// Look a GUID up in the registry.  A known GUID maps to its
    /// symbolic type; any other passes through as `Unknown`.
    pub fn from_guid(g: Guid) -> (r: PartitionType)
        ensures
            spec_type_guid_bytes(r) == g@,
            r is Unknown <==> !spec_known_type(g@),
    {
        if g.is_zero() {
            PartitionType::Unused
        } else if g.same_as(&PartitionType::BiosBoot.to_guid()) {
            PartitionType::BiosBoot
        } else if g.same_as(&PartitionType::EfiSystem.to_guid()) {
            PartitionType::EfiSystem
        } else if g.same_as(&PartitionType::MicrosoftBasicData.to_guid()) {
            PartitionType::MicrosoftBasicData
        } else if g.same_as(&PartitionType::LinuxFilesystemData.to_guid()) {
            PartitionType::LinuxFilesystemData
        } else if g.same_as(&PartitionType::LinuxSwap.to_guid()) {
            PartitionType::LinuxSwap
        } else if g.same_as(&PartitionType::Zfs.to_guid()) {
            PartitionType::Zfs
        } else if g.same_as(&PartitionType::AppleHfsPlus.to_guid()) {
            PartitionType::AppleHfsPlus
        } else {
            PartitionType::Unknown(g)
        }
    }
}

/// A builder for used partition entries, measured in bytes: the start
/// offset and size are byte counts and are converted to logical blocks
/// by [`PartitionBuilder::finish`].
pub struct PartitionBuilder {
    guid: Guid,
    type_guid: Guid,
    start_bytes: u64,
    size_bytes: u64,
    attributes: u64,
    name: Vec<u16>,
}

impl PartitionBuilder {
    /// This builder's partition GUID bytes.
    pub closed spec fn spec_guid(&self) -> Seq<u8> {
        self.guid@
    }

    /// This builder's type GUID bytes.
    pub closed spec fn spec_type_guid(&self) -> Seq<u8> {
        self.type_guid@
    }

    /// This builder's start offset in bytes.
    pub closed spec fn spec_start(&self) -> u64 {
        self.start_bytes
    }

    /// This builder's size in bytes.
    pub closed spec fn spec_size(&self) -> u64 {
        self.size_bytes
    }

    /// This builder's attribute flags.
    pub closed spec fn spec_attributes(&self) -> u64 {
        self.attributes
    }

    /// This builder's name code units.
    pub closed spec fn spec_name(&self) -> Seq<u16> {
        self.name@
    }

    /// Whether the stored name is trimmed and fits the 36-unit field.
    pub open spec fn wf(&self) -> bool {
        &&& self.spec_name().len() <= 36
        &&& self.spec_name().len() > 0 ==> self.spec_name().last() != 0u16
    }

    /// Start building a partition with the given partition GUID.
    pub fn new(guid: Guid) -> (r: PartitionBuilder)
        ensures
            r.spec_guid() == guid@,
            r.spec_type_guid() == spec_zero_guid(),
            r.spec_start() == 0 && r.spec_size() == 0 && r.spec_attributes() == 0,
            r.spec_name() == Seq::<u16>::empty(),
            r.wf(),
    {
        PartitionBuilder {
            guid,
            type_guid: Guid::zero(),
            start_bytes: 0,
            size_bytes: 0,
            attributes: 0,
            name: Vec::new(),
        }
    }

    /// Set the start offset in bytes.
    pub fn start(self, start_bytes: u64) -> (r: PartitionBuilder)
        ensures
            r.spec_start() == start_bytes,
            r.spec_guid() == self.spec_guid(),
            r.spec_type_guid() == self.spec_type_guid(),
            r.spec_size() == self.spec_size(),
            r.spec_attributes() == self.spec_attributes(),
            r.spec_name() == self.spec_name(),
            r.wf() == self.wf(),
    {
        PartitionBuilder { start_bytes, ..self }
    }

    /// Set the size in bytes.
    pub fn size(self, size_bytes: u64) -> (r: PartitionBuilder)
        ensures
            r.spec_size() == size_bytes,
            r.spec_guid() == self.spec_guid(),
            r.spec_type_guid() == self.spec_type_guid(),
            r.spec_start() == self.spec_start(),
            r.spec_attributes() == self.spec_attributes(),
            r.spec_name() == self.spec_name(),
            r.wf() == self.wf(),
    {
        PartitionBuilder { size_bytes, ..self }
    }

    /// Set the partition type.
    pub fn partition_type(self, t: PartitionType) -> (r: PartitionBuilder)
        ensures
            r.spec_type_guid() == spec_type_guid_bytes(t),
            r.spec_guid() == self.spec_guid(),
            r.spec_start() == self.spec_start(),
            r.spec_size() == self.spec_size(),
            r.spec_attributes() == self.spec_attributes(),
            r.spec_name() == self.spec_name(),
            r.wf() == self.wf(),
    {
        PartitionBuilder { type_guid: t.to_guid(), ..self }
    }

    /// Set the attribute flags.
    pub fn attributes(self, attributes: u64) -> (r: PartitionBuilder)
        ensures
            r.spec_attributes() == attributes,
            r.spec_guid() == self.spec_guid(),
            r.spec_type_guid() == self.spec_type_guid(),
            r.spec_start() == self.spec_start(),
            r.spec_size() == self.spec_size(),
            r.spec_name() == self.spec_name(),
            r.wf() == self.wf(),
    {
        PartitionBuilder { attributes, ..self }
    }

    /// Set the name.  The string is encoded as UTF-16 and its trailing
    /// NUL units trimmed (the NUL-padded field cannot hold them); a name
    /// longer than the 36-unit field is rejected.
    pub fn name(self, name: &str) -> (r: Result<PartitionBuilder, Error>)
        ensures
            r is Ok <==> spec_trim_nuls(utf16_of(name@)).len() <= 36,
            r matches Ok(b) ==> {
                &&& b.spec_name() == spec_trim_nuls(utf16_of(name@))
                &&& b.wf()
                &&& b.spec_guid() == self.spec_guid()
                &&& b.spec_type_guid() == self.spec_type_guid()
                &&& b.spec_start() == self.spec_start()
                &&& b.spec_size() == self.spec_size()
                &&& b.spec_attributes() == self.spec_attributes()
            },
            r matches Err(e) ==> e == Error::NameTooLong,
    {
        let mut units = encode_utf16_units(name);
        while units.len() > 0 && units[units.len() - 1] == 0u16
            invariant
                spec_trim_nuls(units@) == spec_trim_nuls(utf16_of(name@)),
            decreases units@.len(),
        {
            proof {
                assert(units@.last() == 0u16);
            }
            units.pop();
        }
        proof {
            assert(units@ == spec_trim_nuls(units@));
        }
        if units.len() > 36 {
            return Err(Error::NameTooLong);
        }
        Ok(PartitionBuilder { name: units, ..self })
    }

    /// Build the partition, converting the byte-measured start and size
    /// to logical blocks: the partition covers the blocks of the byte
    /// range `[start, start + size)`.
    pub fn finish(self, block_size: u64) -> (r: Partition)
        requires
            spec_valid_block_size(block_size),
            self.spec_type_guid() != spec_zero_guid(),
            self.spec_size() >= 1,
            self.spec_start() + self.spec_size() <= u64::MAX,
            self.wf(),
        ensures
            r@.guid == self.spec_guid(),
            r@.type_guid == self.spec_type_guid(),
            r@.start_lba == self.spec_start() as int / block_size as int,
            r@.end_lba == (self.spec_start() + self.spec_size() - 1) / block_size as int,
            r@.attributes == self.spec_attributes(),
            r@.name == self.spec_name(),
            spec_pv_wf(r@),
            spec_pv_used(r@),
    {
        let start_lba = self.start_bytes / block_size;
        let end_lba = (self.start_bytes + (self.size_bytes - 1)) / block_size;
        Partition {
            type_guid: self.type_guid,
            guid: self.guid,
            start_lba,
            end_lba,
            attributes: self.attributes,
            name: self.name,
        }
    }
}

/// The views of a sequence of partitions.
pub open spec fn spec_views(parts: Seq<Partition>) -> Seq<PartitionView> {
    parts.map_values(|p: Partition| p@)
}

/// The view of the unused sentinel entry.
pub open spec fn spec_zero_pv() -> PartitionView {
    PartitionView {
        type_guid: spec_zero_guid(),
        guid: spec_zero_guid(),
        start_lba: 0,
        end_lba: 0,
        attributes: 0,
        name: Seq::<u16>::empty(),
    }
}

/// The concatenated entry bytes of a sequence of partitions.
pub open spec fn spec_entries_bytes(pvs: Seq<PartitionView>) -> Seq<u8>
    decreases pvs.len(),
{
    if pvs.len() == 0 {
        Seq::<u8>::empty()
    } else {
        spec_entries_bytes(pvs.drop_last()) + spec_entry_bytes(pvs.last())
    }
}

/// `k` unused (all-zero) entries.
pub open spec fn spec_zero_entries(k: nat) -> Seq<u8>
    decreases k,
{
    if k == 0 {
        Seq::<u8>::empty()
    } else {
        spec_zero_entries((k - 1) as nat) + spec_entry_bytes(spec_zero_pv())
    }
}

/// The on-disk partition array: the used entries in order, padded with
/// unused entries to `total` slots of 128 bytes.
pub open spec fn spec_array_bytes(pvs: Seq<PartitionView>, total: nat) -> Seq<u8>
    recommends
        pvs.len() <= total,
{
    spec_entries_bytes(pvs) + spec_zero_entries((total - pvs.len()) as nat)
}

/// Entry `i` of an array whose slots are `esize` bytes: the 128
/// meaningful bytes of the slot.
pub open spec fn spec_entry_at(b: Seq<u8>, i: int, esize: int) -> Seq<u8> {
    b.subrange(i * esize, i * esize + 128)
}

/// The used entries among the first `n` slots of an array, in slot order.
pub open spec fn spec_used_views(b: Seq<u8>, n: nat, esize: nat) -> Seq<PartitionView>
    decreases n,
{
    if n == 0 {
        Seq::<PartitionView>::empty()
    } else {
        let prev = spec_used_views(b, (n - 1) as nat, esize);
        let pv = spec_parse_entry(spec_entry_at(b, n - 1, esize as int));
        if spec_pv_used(pv) {
            prev + seq![pv]
        } else {
            prev
        }
    }
}

/// How many array slots a table of capacity `cap` retains: the first
/// `cap` of the `count` slots on disk.  Used entries in later slots are
/// still CRC-validated but not kept in memory.
pub open spec fn spec_retained_slots(count: nat, cap: nat) -> nat {
    if count <= cap {
        count
    } else {
        cap
    }
}

/// Entry byte concatenations have 128 bytes per entry.
proof fn lemma_entries_bytes_len(pvs: Seq<PartitionView>)
    requires
        forall|i: int| 0 <= i < pvs.len() ==> spec_pv_wf(#[trigger] pvs[i]),
    ensures
        spec_entries_bytes(pvs).len() == 128 * pvs.len(),
    decreases pvs.len(),
{
    if pvs.len() > 0 {
        lemma_entries_bytes_len(pvs.drop_last());
        lemma_entry_bytes_len(pvs.last());
    }
}

/// Zero-entry padding has 128 bytes per slot.
proof fn lemma_zero_entries_len(k: nat)
    ensures
        spec_zero_entries(k).len() == 128 * k,
    decreases k,
{
    if k > 0 {
        lemma_zero_entries_len((k - 1) as nat);
        lemma_entry_bytes_len(spec_zero_pv());
    }
}

/// A full array is 128 bytes per slot.
pub proof fn lemma_array_bytes_len(pvs: Seq<PartitionView>, total: nat)
    requires
        pvs.len() <= total,
        forall|i: int| 0 <= i < pvs.len() ==> spec_pv_wf(#[trigger] pvs[i]),
    ensures
        spec_array_bytes(pvs, total).len() == 128 * total,
{
    lemma_entries_bytes_len(pvs);
    lemma_zero_entries_len((total - pvs.len()) as nat);
}

/// The used entries of the first `n` slots depend only on those slots'
/// bytes.
proof fn lemma_used_views_prefix(b1: Seq<u8>, b2: Seq<u8>, n: nat, esize: nat)
    requires
        esize >= 128,
        n * esize <= b1.len(),
        n * esize <= b2.len(),
        forall|j: int| 0 <= j < n * esize ==> b1[j] == b2[j],
    ensures
        spec_used_views(b1, n, esize) == spec_used_views(b2, n, esize),
    decreases n,
{
    if n > 0 {
        assert((n - 1) * esize + esize == n * esize) by (nonlinear_arith);
        lemma_used_views_prefix(b1, b2, (n - 1) as nat, esize);
        assert(spec_entry_at(b1, n - 1, esize as int) =~= spec_entry_at(b2, n - 1, esize as int));
    }
}

/// Decoding an encoded array of used entries gives the entries back in
/// slot order.
proof fn lemma_array_decode(pvs: Seq<PartitionView>, total: nat)
    requires
        pvs.len() <= total,
        forall|i: int| 0 <= i < pvs.len() ==> spec_pv_wf(#[trigger] pvs[i]),
        forall|i: int| 0 <= i < pvs.len() ==> spec_pv_used(#[trigger] pvs[i]),
    ensures
        spec_used_views(spec_array_bytes(pvs, total), total, 128) == pvs,
    decreases total,
{
    let b = spec_array_bytes(pvs, total);
    lemma_entries_bytes_len(pvs);
    lemma_zero_entries_len((total - pvs.len()) as nat);
    if total == 0 {
        assert(spec_used_views(b, 0, 128) =~= pvs);
    } else if pvs.len() == total {
        let p = pvs.last();
        let rest = pvs.drop_last();
        let b2 = spec_array_bytes(rest, (total - 1) as nat);
        lemma_entries_bytes_len(rest);
        lemma_entry_bytes_len(p);
        lemma_zero_entries_len(0);
        assert(b2 =~= spec_entries_bytes(rest));
        assert(b =~= b2 + spec_entry_bytes(p));
        assert(spec_entry_at(b, total - 1, 128) =~= spec_entry_bytes(p));
        lemma_entry_roundtrip(p);
        lemma_used_views_prefix(b, b2, (total - 1) as nat, 128);
        lemma_array_decode(rest, (total - 1) as nat);
        assert(spec_used_views(b, total, 128) =~= rest + seq![p]);
        assert(rest + seq![p] =~= pvs);
    } else {
        let b2 = spec_array_bytes(pvs, (total - 1) as nat);
        lemma_zero_entries_len((total - 1 - pvs.len()) as nat);
        lemma_entry_bytes_len(spec_zero_pv());
        assert(spec_zero_entries((total - pvs.len()) as nat) =~= spec_zero_entries(
            (total - 1 - pvs.len()) as nat,
        ) + spec_entry_bytes(spec_zero_pv()));
        assert(b =~= b2 + spec_entry_bytes(spec_zero_pv()));
        assert(spec_entry_at(b, total - 1, 128) =~= spec_entry_bytes(spec_zero_pv()));
        lemma_entry_roundtrip(spec_zero_pv());
        assert(!spec_pv_used(spec_parse_entry(spec_entry_at(b, total - 1, 128))));
        lemma_used_views_prefix(b, b2, (total - 1) as nat, 128);
        lemma_array_decode(pvs, (total - 1) as nat);
        assert(spec_used_views(b, total, 128) =~= pvs);
    }
}

/// Earlier zero-entry padding bytes do not depend on how many padding
/// slots follow.
proof fn lemma_zero_entries_prefix(k1: nat, k2: nat)
    requires
        k1 <= k2,
    ensures
        forall|j: int| 0 <= j < 128 * k1 ==> spec_zero_entries(k2)[j] == spec_zero_entries(
            k1,
        )[j],
    decreases k2,
{
    lemma_zero_entries_len(k1);
    lemma_zero_entries_len(k2);
    if k1 < k2 {
        lemma_zero_entries_prefix(k1, (k2 - 1) as nat);
        lemma_zero_entries_len((k2 - 1) as nat);
    }
}

/// The first `n` slots of an array do not depend on how many padding
/// slots follow them.
proof fn lemma_array_bytes_prefix(pvs: Seq<PartitionView>, n: nat, total: nat)
    requires
        pvs.len() <= n <= total,
        forall|i: int| 0 <= i < pvs.len() ==> spec_pv_wf(#[trigger] pvs[i]),
    ensures
        forall|j: int|
            0 <= j < 128 * n ==> spec_array_bytes(pvs, total)[j] == spec_array_bytes(pvs, n)[j],
{
    lemma_entries_bytes_len(pvs);
    lemma_zero_entries_len((total - pvs.len()) as nat);
    lemma_zero_entries_len((n - pvs.len()) as nat);
    lemma_zero_entries_prefix((n - pvs.len()) as nat, (total - pvs.len()) as nat);
}

/// The array round-trip law: encoding a list of used partitions into a
/// `total`-slot array and decoding it at any capacity that can hold the
/// list gives the list back, order preserved — so a list sorted by
/// start LBA decodes sorted in the same order.
pub proof fn lemma_array_roundtrip(pvs: Seq<PartitionView>, total: nat, cap: nat)
    requires
        pvs.len() <= total,
        pvs.len() <= cap,
        forall|i: int| 0 <= i < pvs.len() ==> spec_pv_wf(#[trigger] pvs[i]),
        forall|i: int| 0 <= i < pvs.len() ==> spec_pv_used(#[trigger] pvs[i]),
    ensures
        spec_used_views(
            spec_array_bytes(pvs, total),
            spec_retained_slots(total, cap),
            128,
        ) == pvs,
{
    let n = spec_retained_slots(total, cap);
    lemma_array_bytes_prefix(pvs, n, total);
    lemma_array_bytes_len(pvs, total);
    lemma_array_bytes_len(pvs, n);
    lemma_used_views_prefix(
        spec_array_bytes(pvs, total),
        spec_array_bytes(pvs, n),
        n,
        128,
    );
    lemma_array_decode(pvs, n);
}

/// Serialize `parts` into an array of `total` 128-byte slots: the used
/// entries first, unused entries as padding.
pub fn encode_array(parts: &Vec<Partition>, total: usize) -> (r: Vec<u8>)
    requires
        parts@.len() <= total,
        forall|i: int| 0 <= i < parts@.len() ==> spec_pv_wf(#[trigger] parts@[i]@),
    ensures
        r@ == spec_array_bytes(spec_views(parts@), total as nat),
        r@.len() == 128 * total,
{
    let ghost vs = spec_views(parts@);
    let mut out: Vec<u8> = Vec::new();
    let n = parts.len();
    let mut i: usize = 0;
    while i < n
        invariant
            n == parts@.len() <= total,
            i <= n,
            vs == spec_views(parts@),
            forall|j: int| 0 <= j < parts@.len() ==> spec_pv_wf(#[trigger] parts@[j]@),
            out@ == spec_entries_bytes(vs.take(i as int)),
        decreases n - i,
    {
        parts[i].push_bytes(&mut out);
        proof {
            assert(vs.take(i + 1).drop_last() =~= vs.take(i as int));
            assert(vs.take(i + 1).last() == parts@[i as int]@);
        }
        i = i + 1;
    }
    proof {
        assert(vs.take(n as int) =~= vs);
    }
    let zero = Partition::new();
    proof {
        assert(zero@ =~= spec_zero_pv());
    }
    let mut k: usize = n;
    while k < total
        invariant
            n == parts@.len(),
            n <= k <= total,
            vs == spec_views(parts@),
            zero@ == spec_zero_pv(),
            out@ == spec_entries_bytes(vs) + spec_zero_entries((k - n) as nat),
        decreases total - k,
    {
        zero.push_bytes(&mut out);
        k = k + 1;
    }
    proof {
        lemma_entries_bytes_len(vs);
        lemma_zero_entries_len((total - n) as nat);
    }
    out
}

/// Decode the used entries among the first `cap` of an array's `count`
/// slots of `esize` bytes, in slot order.  Used entries in later slots
/// are not retained.
pub fn decode_array(bytes: &[u8], count: usize, esize: usize, cap: usize) -> (r: Vec<Partition>)
    requires
        esize >= 128,
        count * esize == bytes@.len(),
    ensures
        spec_views(r@) == spec_used_views(
            bytes@,
            spec_retained_slots(count as nat, cap as nat),
            esize as nat,
        ),
        r@.len() <= cap,
        forall|i: int|
            0 <= i < r@.len() ==> spec_pv_wf(#[trigger] r@[i]@) && spec_pv_used(r@[i]@),
    {
    let nb = bytes.len();
    let limit: usize = if count <= cap {
        count
    } else {
        cap
    };
    let mut out: Vec<Partition> = Vec::new();
    let mut i: usize = 0;
    while i < limit
        invariant
            esize >= 128,
            count * esize == bytes@.len(),
            nb == bytes@.len(),
            limit == spec_retained_slots(count as nat, cap as nat),
            limit <= count && limit <= cap,
            i <= limit,
            spec_views(out@) == spec_used_views(bytes@, i as nat, esize as nat),
            out@.len() <= i,
            forall|j: int|
                0 <= j < out@.len() ==> spec_pv_wf(#[trigger] out@[j]@) && spec_pv_used(
                    out@[j]@,
                ),
        decreases limit - i,
    {
        proof {
            assert(i * esize + esize <= count * esize && (i as int) * (esize as int) == (i
                * esize) as int) by (nonlinear_arith)
                requires
                    i < count,
                    esize >= 1,
                    count * esize == bytes@.len(),
            ;
        }
        let off = i * esize;
        let e = slice_subrange(bytes, off, off + 128);
        let p = Partition::from_bytes(e);
        let ghost used = spec_used_views(bytes@, i as nat, esize as nat);
        let ghost used2 = spec_used_views(bytes@, (i + 1) as nat, esize as nat);
        proof {
            assert(e@ =~= spec_entry_at(bytes@, i as int, esize as int));
        }
        if p.is_used() {
            proof {
                assert(used2 == used + seq![p@]);
                assert(spec_views(out@.push(p)) =~= spec_views(out@) + seq![p@]);
            }
            out.push(p);
        } else {
            proof {
                assert(used2 == used);
            }
        }
        i = i + 1;
    }
    out
}

} // verus!
