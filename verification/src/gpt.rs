//! The in-memory GUID Partition Table: a disk GUID, a bounded, sorted
//! collection of used partitions, and the disk geometry, with the read,
//! validate, mutate and write operations.

use vstd::prelude::*;
use crate::checksum::{crc32, crc32_of};
use crate::codec::{spec_splice, write_bytes_at};
use crate::geometry::{
    array_blocks, last_lba, spec_array_blocks, spec_last_lba, spec_valid_block_size,
};
use crate::guid::{lemma_guid_view_len, spec_zero_guid, Guid};
use crate::header::{
    lemma_header_bytes_hv, spec_hdr_alt, spec_hdr_array_start, spec_hdr_count, spec_hdr_esize,
    spec_hdr_fu, spec_hdr_guid, spec_hdr_lu, spec_hdr_pcrc, spec_header_err, spec_header_ok,
    spec_hv_bytes, Align, Header, HeaderKind,
};
use crate::mbr::{spec_canonical_mbr, spec_mbr_valid, ProtectiveMbr};
use crate::partition::{
    decode_array, encode_array, lemma_array_bytes_len, lemma_array_roundtrip, spec_array_bytes,
    spec_pv_used, spec_pv_wf, spec_retained_slots, spec_trim_nuls, spec_used_views, spec_views,
    utf16_of, Partition, PartitionView,
};
use vstd::slice::slice_subrange;
use crate::io::{DiskRead, DiskWrite};
use crate::Error;

verus! {

broadcast use lemma_guid_view_len;

/// The default in-memory capacity: the 16,384 reserved bytes hold 128
/// entries of 128 bytes.
pub const DEFAULT_PARTITIONS: usize = 128;

/// The ghost form of a table.
#[verifier::ext_equal]
pub struct GptView {
    /// Disk GUID bytes (RFC 4122 order).
    pub guid: Seq<u8>,
    /// The used partitions, sorted by start LBA.
    pub partitions: Seq<PartitionView>,
    /// Bytes per logical block.
    pub block_size: u64,
    /// Device size in bytes.
    pub disk_size: u64,
    /// How many partitions the table keeps in memory.
    pub capacity: nat,
    /// Whether the usable range starts right after the primary array
    /// rather than at block 2048.
    pub minimal_align: bool,
}

/// Whether two partitions share a logical block.
pub open spec fn spec_overlap(a: PartitionView, b: PartitionView) -> bool {
    a.start_lba <= b.end_lba && b.start_lba <= a.end_lba
}

/// Whether `s` is sorted by start LBA.
pub open spec fn spec_sorted_by_start(s: Seq<PartitionView>) -> bool {
    forall|i: int, j: int| 0 <= i < j < s.len() ==> s[i].start_lba <= s[j].start_lba
}

/// Whether no two partitions of `s` share a logical block.
pub open spec fn spec_pairwise_disjoint(s: Seq<PartitionView>) -> bool {
    forall|i: int, j: int| 0 <= i < j < s.len() ==> !spec_overlap(s[i], s[j])
}

/// Whether every partition of `s` lies inside the usable range.
pub open spec fn spec_all_in_range(s: Seq<PartitionView>, fu: u64, lu: u64) -> bool {
    forall|i: int| 0 <= i < s.len() ==> spec_in_range(#[trigger] s[i], fu, lu)
}

/// Whether a partition lies inside `[fu, lu]` with an ordered extent.
pub open spec fn spec_in_range(pv: PartitionView, fu: u64, lu: u64) -> bool {
    fu <= pv.start_lba && pv.start_lba <= pv.end_lba && pv.end_lba <= lu
}

/// The last LBA of the table's device.
pub open spec fn spec_gpt_last_lba(g: GptView) -> int {
    spec_last_lba(g.disk_size, g.block_size)
}

/// The blocks one copy of the partition array occupies.
pub open spec fn spec_gpt_array_blocks(g: GptView) -> int {
    spec_array_blocks(g.capacity as int, 128, g.block_size)
}

/// The first usable LBA the table writes.
pub open spec fn spec_gpt_first_usable(g: GptView) -> int {
    if g.minimal_align {
        spec_gpt_array_blocks(g) + 2
    } else {
        2048
    }
}

/// The last usable LBA the table writes.
pub open spec fn spec_gpt_last_usable(g: GptView) -> int {
    spec_gpt_last_lba(g) - spec_gpt_array_blocks(g) - 1
}

/// The partition-GUID invariant: every partition GUID is nonzero and
/// no two partitions share one.
pub open spec fn spec_guids_ok(s: Seq<PartitionView>) -> bool {
    &&& forall|i: int| 0 <= i < s.len() ==> (#[trigger] s[i]).guid != spec_zero_guid()
    &&& forall|i: int, j: int| 0 <= i < j < s.len() ==> s[i].guid != s[j].guid
}

/// The table invariant: a valid geometry with room for both header and
/// array copies and a nonempty usable range; a nonzero disk GUID;
/// partitions all well-formed, used, within capacity, sorted by start
/// LBA, pairwise disjoint, and with nonzero, unique partition GUIDs.
pub open spec fn spec_gpt_wf(g: GptView) -> bool {
    &&& spec_valid_block_size(g.block_size)
    &&& g.disk_size >= 2 * g.block_size
    &&& g.guid.len() == 16
    &&& g.guid != spec_zero_guid()
    &&& g.capacity <= 0xffffffff
    &&& g.partitions.len() <= g.capacity
    &&& spec_gpt_first_usable(g) >= spec_gpt_array_blocks(g) + 2
    &&& spec_gpt_first_usable(g) <= spec_gpt_last_usable(g)
    &&& forall|i: int|
        0 <= i < g.partitions.len() ==> spec_pv_wf(#[trigger] g.partitions[i]) && spec_pv_used(
            g.partitions[i],
        )
    &&& spec_sorted_by_start(g.partitions)
    &&& spec_pairwise_disjoint(g.partitions)
    &&& spec_guids_ok(g.partitions)
}

/// Where a partition starting at `start` is inserted: after the longest
/// prefix whose entries start at or before `start`.
pub open spec fn spec_insert_pos(s: Seq<PartitionView>, start: u64) -> int
    decreases s.len(),
{
    if s.len() == 0 {
        0
    } else if s[0].start_lba <= start {
        1 + spec_insert_pos(s.drop_first(), start)
    } else {
        0
    }
}

/// `s` with `pv` inserted at its insertion position.
pub open spec fn spec_insert_sorted(s: Seq<PartitionView>, pv: PartitionView) -> Seq<
    PartitionView,
> {
    s.insert(spec_insert_pos(s, pv.start_lba), pv)
}

/// `s` sorted by start LBA, by repeated sorted insertion.
pub open spec fn spec_sort_by_start(s: Seq<PartitionView>) -> Seq<PartitionView>
    decreases s.len(),
{
    if s.len() == 0 {
        Seq::<PartitionView>::empty()
    } else {
        spec_insert_sorted(spec_sort_by_start(s.drop_last()), s.last())
    }
}

/// The insertion position is the first index whose entry starts after
/// `start`.
proof fn lemma_insert_pos_char(s: Seq<PartitionView>, start: u64)
    ensures
        0 <= spec_insert_pos(s, start) <= s.len(),
        forall|i: int| 0 <= i < spec_insert_pos(s, start) ==> s[i].start_lba <= start,
        spec_insert_pos(s, start) < s.len() ==> s[spec_insert_pos(s, start)].start_lba > start,
    decreases s.len(),
{
    if s.len() > 0 {
        let rest = s.drop_first();
        lemma_insert_pos_char(rest, start);
        if s[0].start_lba <= start {
            let pos = spec_insert_pos(s, start);
            assert forall|i: int| 0 <= i < pos implies s[i].start_lba <= start by {
                if i > 0 {
                    assert(s[i] == rest[i - 1]);
                }
            }
            if pos < s.len() {
                assert(s[pos] == rest[pos - 1]);
            }
        }
    }
}

/// Sorted insertion keeps the sequence sorted, and adds exactly the new
/// element.
proof fn lemma_insert_sorted_sorted(s: Seq<PartitionView>, pv: PartitionView)
    requires
        spec_sorted_by_start(s),
    ensures
        spec_sorted_by_start(spec_insert_sorted(s, pv)),
        spec_insert_sorted(s, pv).len() == s.len() + 1,
        forall|k: int|
            0 <= k < spec_insert_sorted(s, pv).len() ==> (#[trigger] spec_insert_sorted(s, pv)[k]
                == pv || exists|i: int|
                0 <= i < s.len() && spec_insert_sorted(s, pv)[k] == #[trigger] s[i]),
{
    let pos = spec_insert_pos(s, pv.start_lba);
    lemma_insert_pos_char(s, pv.start_lba);
    let t = s.insert(pos, pv);
    assert forall|i: int, j: int| 0 <= i < j < t.len() implies t[i].start_lba
        <= t[j].start_lba by {
        if i < pos && j < pos {
        } else if i < pos && j == pos {
        } else if i == pos && j > pos {
        } else if i < pos && j > pos {
            assert(s[i].start_lba <= s[j - 1].start_lba);
        } else {
            assert(t[i] == s[i - 1] && t[j] == s[j - 1]);
        }
    }
    assert forall|k: int| 0 <= k < t.len() implies (t[k] == pv || exists|i: int|
        0 <= i < s.len() && t[k] == s[i]) by {
        if k < pos {
            assert(t[k] == s[k]);
        } else if k > pos {
            assert(t[k] == s[k - 1]);
        }
    }
}

/// Insertion sort produces a sorted sequence of the same length whose
/// elements all come from the input.
proof fn lemma_sort_props(s: Seq<PartitionView>)
    ensures
        spec_sorted_by_start(spec_sort_by_start(s)),
        spec_sort_by_start(s).len() == s.len(),
        forall|k: int|
            0 <= k < s.len() ==> exists|i: int|
                0 <= i < s.len() && #[trigger] spec_sort_by_start(s)[k] == #[trigger] s[i],
    decreases s.len(),
{
    if s.len() > 0 {
        let rest = s.drop_last();
        lemma_sort_props(rest);
        lemma_insert_sorted_sorted(spec_sort_by_start(rest), s.last());
        assert forall|k: int| 0 <= k < s.len() implies exists|i: int|
            0 <= i < s.len() && #[trigger] spec_sort_by_start(s)[k] == s[i] by {
            let t = spec_sort_by_start(s);
            if t[k] == s.last() {
                assert(t[k] == s[s.len() - 1]);
            } else {
                let j = choose|j: int|
                    0 <= j < spec_sort_by_start(rest).len() && t[k] == spec_sort_by_start(
                        rest,
                    )[j];
                let i = choose|i: int|
                    0 <= i < rest.len() && spec_sort_by_start(rest)[j] == #[trigger] rest[i];
                assert(t[k] == s[i]);
            }
        }
    }
}

/// Sort partitions by start LBA with insertion sort.
fn sort_partitions(parts: Vec<Partition>) -> (r: Vec<Partition>)
    ensures
        spec_views(r@) == spec_sort_by_start(spec_views(parts@)),
{
    let ghost vs = spec_views(parts@);
    let mut rem = parts;
    let mut out: Vec<Partition> = Vec::new();
    let mut i: usize = 0;
    let n = rem.len();
    while i < n
        invariant
            n == vs.len(),
            i <= n,
            rem@.len() == n - i,
            forall|j: int| 0 <= j < rem@.len() ==> rem@[j]@ == vs[i + j],
            spec_views(out@) == spec_sort_by_start(vs.take(i as int)),
        decreases n - i,
    {
        let p = rem.remove(0);
        proof {
            assert(p@ == vs[i as int]);
            assert forall|j: int| 0 <= j < rem@.len() implies rem@[j]@ == vs[i + 1 + j] by {
            }
        }
        let pos = find_insert_pos(&out, p.start_lba());
        proof {
            let sorted_i = spec_sort_by_start(vs.take(i as int));
            assert(vs.take(i + 1).drop_last() =~= vs.take(i as int));
            assert(vs.take(i + 1).last() == vs[i as int]);
            lemma_insert_pos_char(sorted_i, p@.start_lba);
        }
        let ghost before = spec_views(out@);
        out.insert(pos, p);
        proof {
            assert(spec_views(out@) =~= before.insert(
                spec_insert_pos(before, p@.start_lba),
                p@,
            ));
            assert(spec_views(out@) == spec_sort_by_start(vs.take(i + 1)));
        }
        i = i + 1;
    }
    proof {
        assert(vs.take(n as int) =~= vs);
    }
    out
}

/// Sorted insertion preserves sortedness; it preserves disjointness
/// when the new partition overlaps none of the old ones, and the
/// partition-GUID invariant when its GUID is fresh and nonzero.
proof fn lemma_insert_sorted_wf(s: Seq<PartitionView>, pv: PartitionView)
    requires
        spec_sorted_by_start(s),
        spec_pairwise_disjoint(s),
        spec_guids_ok(s),
        pv.guid != spec_zero_guid(),
        forall|i: int| 0 <= i < s.len() ==> !spec_overlap(pv, #[trigger] s[i]),
        forall|i: int| 0 <= i < s.len() ==> pv.guid != (#[trigger] s[i]).guid,
    ensures
        spec_sorted_by_start(spec_insert_sorted(s, pv)),
        spec_pairwise_disjoint(spec_insert_sorted(s, pv)),
        spec_guids_ok(spec_insert_sorted(s, pv)),
        spec_insert_sorted(s, pv).len() == s.len() + 1,
        forall|k: int|
            0 <= k < spec_insert_sorted(s, pv).len() ==> (#[trigger] spec_insert_sorted(s, pv)[k]
                == pv || exists|i: int|
                0 <= i < s.len() && spec_insert_sorted(s, pv)[k] == #[trigger] s[i]),
{
    let pos = spec_insert_pos(s, pv.start_lba);
    lemma_insert_pos_char(s, pv.start_lba);
    let t = s.insert(pos, pv);
    assert forall|i: int, j: int| 0 <= i < j < t.len() implies t[i].start_lba
        <= t[j].start_lba by {
        if i < pos && j < pos {
        } else if i < pos && j == pos {
        } else if i == pos && j > pos {
        } else if i < pos && j > pos {
            assert(s[i].start_lba <= s[j - 1].start_lba);
        } else {
            assert(t[i] == s[i - 1] && t[j] == s[j - 1]);
        }
    }
    assert forall|i: int, j: int| 0 <= i < j < t.len() implies !spec_overlap(t[i], t[j])
        && t[i].guid != t[j].guid by {
        if i == pos {
            assert(t[j] == s[j - 1]);
            assert(!spec_overlap(pv, s[j - 1]));
            assert(pv.guid != s[j - 1].guid);
        } else if j == pos {
            assert(t[i] == s[i]);
            assert(!spec_overlap(pv, s[i]));
            assert(pv.guid != s[i].guid);
        } else {
            let si: int = if i < pos {
                i
            } else {
                i - 1
            };
            let sj: int = if j < pos {
                j
            } else {
                j - 1
            };
            assert(t[i] == s[si] && t[j] == s[sj]);
            assert(!spec_overlap(s[si], s[sj]));
            assert(s[si].guid != s[sj].guid);
        }
    }
    assert forall|k: int| 0 <= k < t.len() implies (#[trigger] t[k]).guid
        != spec_zero_guid() by {
        if k < pos {
            assert(t[k] == s[k]);
        } else if k > pos {
            assert(t[k] == s[k - 1]);
        }
    }
    assert forall|k: int| 0 <= k < t.len() implies (t[k] == pv || exists|i: int|
        0 <= i < s.len() && t[k] == s[i]) by {
        if k < pos {
            assert(t[k] == s[k]);
        } else if k > pos {
            assert(t[k] == s[k - 1]);
        }
    }
}

/// A GUID Partition Table.
///
/// All modifications happen in memory and touch only partition
/// metadata, never the data inside partitions.  The table keeps at most
/// `capacity` partitions (128 by default); reading retains the used
/// entries among the first `capacity` array slots and drops later ones,
/// though the full on-disk array is still CRC-validated.
#[derive(Debug, PartialEq, Eq)]
pub struct Gpt {
    guid: Guid,
    partitions: Vec<Partition>,
    block_size: u64,
    disk_size: u64,
    capacity: usize,
    align: Align,
}

impl View for Gpt {
    type V = GptView;

    closed spec fn view(&self) -> GptView {
        GptView {
            guid: self.guid@,
            partitions: spec_views(self.partitions@),
            block_size: self.block_size,
            disk_size: self.disk_size,
            capacity: self.capacity as nat,
            minimal_align: self.align is Minimal,
        }
    }
}

/// Find where a partition starting at `start` belongs in a sorted list.
fn find_insert_pos(parts: &Vec<Partition>, start: u64) -> (pos: usize)
    ensures
        pos == spec_insert_pos(spec_views(parts@), start),
{
    let ghost s = spec_views(parts@);
    proof {
        lemma_insert_pos_char(s, start);
    }
    let n = parts.len();
    let mut pos: usize = 0;
    while pos < n && parts[pos].start_lba() <= start
        invariant
            n == parts@.len(),
            pos <= n,
            s == spec_views(parts@),
            forall|i: int| 0 <= i < pos ==> s[i].start_lba <= start,
        decreases n - pos,
    {
        pos = pos + 1;
    }
    proof {
        let sp = spec_insert_pos(s, start);
        if pos < sp {
            assert(s[pos as int].start_lba <= start);
            assert(s[pos as int].start_lba > start);
        }
        if sp < pos {
            assert(s[sp].start_lba > start);
            assert(s[sp].start_lba <= start);
        }
    }
    pos
}

/// Whether `p` overlaps any partition in `parts`.
fn overlaps_any(parts: &Vec<Partition>, p: &Partition) -> (r: bool)
    ensures
        r == exists|i: int|
            0 <= i < parts@.len() && spec_overlap(p@, #[trigger] spec_views(parts@)[i]),
{
    let ghost s = spec_views(parts@);
    let n = parts.len();
    let mut i: usize = 0;
    while i < n
        invariant
            n == parts@.len(),
            i <= n,
            s == spec_views(parts@),
            forall|j: int| 0 <= j < i ==> !spec_overlap(p@, #[trigger] s[j]),
        decreases n - i,
    {
        let start_i = parts[i].start_lba();
        let end_i = parts[i].end_lba();
        if p.start_lba() <= end_i && start_i <= p.end_lba() {
            proof {
                assert(spec_overlap(p@, s[i as int]));
            }
            return true;
        }
        i = i + 1;
    }
    false
}

/// Whether every partition lies inside `[fu, lu]` with an ordered
/// extent.
fn check_all_in_range(parts: &Vec<Partition>, fu: u64, lu: u64) -> (r: bool)
    ensures
        r == spec_all_in_range(spec_views(parts@), fu, lu),
{
    let ghost s = spec_views(parts@);
    let n = parts.len();
    let mut i: usize = 0;
    while i < n
        invariant
            n == parts@.len(),
            i <= n,
            s == spec_views(parts@),
            forall|j: int| 0 <= j < i ==> spec_in_range(#[trigger] s[j], fu, lu),
        decreases n - i,
    {
        let p = &parts[i];
        if !(fu <= p.start_lba() && p.start_lba() <= p.end_lba() && p.end_lba() <= lu) {
            proof {
                assert(!spec_in_range(s[i as int], fu, lu));
            }
            return false;
        }
        i = i + 1;
    }
    true
}

/// Whether no two partitions share a logical block.
fn check_pairwise_disjoint(parts: &Vec<Partition>) -> (r: bool)
    ensures
        r == spec_pairwise_disjoint(spec_views(parts@)),
{
    let ghost s = spec_views(parts@);
    let n = parts.len();
    let mut i: usize = 0;
    while i < n
        invariant
            n == parts@.len(),
            i <= n,
            s == spec_views(parts@),
            forall|a: int, b: int| 0 <= a < b < s.len() && a < i ==> !spec_overlap(s[a], s[b]),
        decreases n - i,
    {
        let mut j: usize = i + 1;
        while j < n
            invariant
                n == parts@.len(),
                i < j <= n,
                s == spec_views(parts@),
                forall|a: int, b: int| 0 <= a < b < s.len() && a < i ==> !spec_overlap(
                    s[a],
                    s[b],
                ),
                forall|b: int| i < b < j ==> !spec_overlap(s[i as int], s[b]),
            decreases n - j,
        {
            let pi = &parts[i];
            let pj = &parts[j];
            if pi.start_lba() <= pj.end_lba() && pj.start_lba() <= pi.end_lba() {
                proof {
                    assert(spec_overlap(s[i as int], s[j as int]));
                }
                return false;
            }
            j = j + 1;
        }
        i = i + 1;
    }
    true
}

/// Whether some partition in `parts` carries the GUID `g`.
fn guid_used(parts: &Vec<Partition>, g: &Guid) -> (r: bool)
    ensures
        r == exists|i: int|
            0 <= i < parts@.len() && (#[trigger] spec_views(parts@)[i]).guid == g@,
{
    let ghost s = spec_views(parts@);
    let n = parts.len();
    let mut i: usize = 0;
    while i < n
        invariant
            n == parts@.len(),
            i <= n,
            s == spec_views(parts@),
            forall|j: int| 0 <= j < i ==> (#[trigger] s[j]).guid != g@,
        decreases n - i,
    {
        if parts[i].uuid().same_as(g) {
            proof {
                assert(s[i as int].guid == g@);
            }
            return true;
        }
        i = i + 1;
    }
    false
}

/// Whether every partition GUID is nonzero and no two are equal.
fn check_guids(parts: &Vec<Partition>) -> (r: bool)
    ensures
        r == spec_guids_ok(spec_views(parts@)),
{
    let ghost s = spec_views(parts@);
    let n = parts.len();
    let mut i: usize = 0;
    while i < n
        invariant
            n == parts@.len(),
            i <= n,
            s == spec_views(parts@),
            forall|j: int| 0 <= j < i ==> (#[trigger] s[j]).guid != spec_zero_guid(),
            forall|a: int, b: int| 0 <= a < b < s.len() && a < i ==> s[a].guid != s[b].guid,
        decreases n - i,
    {
        let gi = parts[i].uuid();
        if gi.is_zero() {
            proof {
                assert(s[i as int].guid == spec_zero_guid());
            }
            return false;
        }
        let mut j: usize = i + 1;
        while j < n
            invariant
                n == parts@.len(),
                i < j <= n,
                s == spec_views(parts@),
                gi@ == s[i as int].guid,
                forall|a: int, b: int| 0 <= a < b < s.len() && a < i ==> s[a].guid
                    != s[b].guid,
                forall|b: int| i < b < j ==> s[i as int].guid != (#[trigger] s[b]).guid,
            decreases n - j,
        {
            if gi.same_as(&parts[j].uuid()) {
                proof {
                    assert(s[i as int].guid == s[j as int].guid);
                }
                return false;
            }
            j = j + 1;
        }
        i = i + 1;
    }
    true
}

impl Gpt {
    /// The table's disk GUID.
    pub fn uuid(&self) -> (r: Guid)
        ensures
            r@ == self@.guid,
    {
        self.guid
    }

    /// Set the disk GUID.  A disk GUID must be set, and must be unique
    /// across disks; callers that need a fresh one should use
    /// [`Guid::new_v4`].
    pub fn set_uuid(&mut self, guid: Guid)
        requires
            spec_gpt_wf(old(self)@),
            guid@ != spec_zero_guid(),
        ensures
            spec_gpt_wf(final(self)@),
            final(self)@ == (GptView { guid: guid@, ..old(self)@ }),
    {
        self.guid = guid;
        proof {
            assert(self@ =~= GptView { guid: guid@, ..old(self)@ });
        }
    }

    /// The used partitions, sorted by start LBA.
    pub fn partitions(&self) -> (r: &Vec<Partition>)
        ensures
            spec_views(r@) == self@.partitions,
    {
        &self.partitions
    }

    /// Bytes per logical block.
    pub fn block_size(&self) -> (r: u64)
        ensures
            r == self@.block_size,
    {
        self.block_size
    }

    /// Device size in bytes.
    pub fn disk_size(&self) -> (r: u64)
        ensures
            r == self@.disk_size,
    {
        self.disk_size
    }

    /// How many partitions the table keeps in memory.
    pub fn capacity(&self) -> (r: usize)
        ensures
            r == self@.capacity,
    {
        self.capacity
    }

    /// The first usable LBA of the layout this table writes.
    pub fn first_usable_lba(&self) -> (r: u64)
        requires
            spec_gpt_wf(self@),
        ensures
            r == spec_gpt_first_usable(self@),
    {
        proof {
            lemma_gpt_geometry_bounds(self@);
        }
        let ab = array_blocks(self.capacity as u32, 128, self.block_size);
        match self.align {
            Align::Optimal => 2048,
            Align::Minimal => ab + 2,
        }
    }

    /// The last usable LBA of the layout this table writes.
    pub fn last_usable_lba(&self) -> (r: u64)
        requires
            spec_gpt_wf(self@),
        ensures
            r == spec_gpt_last_usable(self@),
    {
        proof {
            lemma_gpt_geometry_bounds(self@);
        }
        let ab = array_blocks(self.capacity as u32, 128, self.block_size);
        let last = self.disk_size / self.block_size - 1;
        last - ab - 1
    }

    /// Create an empty table with a random version-4 disk GUID.
    ///
    /// Fails with `GeometryInvalid` when no 128-slot GPT fits the
    /// device: an invalid block size, or a disk without room for both
    /// header and array copies and a nonempty 1-MiB-aligned usable
    /// range.
    pub fn new(block_size: u64, disk_size: u64) -> (r: Result<Gpt, Error>)
        ensures
            r is Ok <==> spec_empty_geometry_ok(block_size, disk_size),
            r matches Ok(g) ==> spec_gpt_wf(g@) && g@ == (GptView {
                guid: g@.guid,
                partitions: Seq::<PartitionView>::empty(),
                block_size,
                disk_size,
                capacity: 128,
                minimal_align: false,
            }),
            r matches Ok(g) ==> g@.guid != spec_zero_guid() && 0x40 <= g@.guid[6] <= 0x4f
                && 0x80 <= g@.guid[8] <= 0xbf,
            r matches Err(e) ==> e == Error::GeometryInvalid,
    {
        let uuid = Guid::new_v4();
        proof {
            if uuid@ == spec_zero_guid() {
                assert(uuid@[6] == 0u8);
            }
        }
        Gpt::with_uuid(block_size, disk_size, uuid)
    }

    /// Create an empty table with the given disk GUID, which must not
    /// be the zero GUID.
    pub fn with_uuid(block_size: u64, disk_size: u64, uuid: Guid) -> (r: Result<Gpt, Error>)
        ensures
            r is Ok <==> spec_empty_geometry_ok(block_size, disk_size) && uuid@
                != spec_zero_guid(),
            r matches Ok(g) ==> spec_gpt_wf(g@) && g@ == (GptView {
                guid: uuid@,
                partitions: Seq::<PartitionView>::empty(),
                block_size,
                disk_size,
                capacity: 128,
                minimal_align: false,
            }),
            r matches Err(e) ==> e == (if !spec_empty_geometry_ok(block_size, disk_size) {
                Error::GeometryInvalid
            } else {
                Error::InvalidGuid
            }),
    {
        let last = match last_lba(disk_size, block_size) {
            Ok(l) => l,
            Err(e) => {
                return Err(e);
            },
        };
        let ab = array_blocks(128, 128, block_size);
        if !(ab + 2 <= 2048 && last >= ab + 1 && 2048 <= last - ab - 1) {
            return Err(Error::GeometryInvalid);
        }
        if uuid.is_zero() {
            return Err(Error::InvalidGuid);
        }
        let g = Gpt {
            guid: uuid,
            partitions: Vec::new(),
            block_size,
            disk_size,
            capacity: DEFAULT_PARTITIONS,
            align: Align::Optimal,
        };
        proof {
            assert(g@ =~= GptView {
                guid: uuid@,
                partitions: Seq::<PartitionView>::empty(),
                block_size,
                disk_size,
                capacity: 128,
                minimal_align: false,
            });
        }
        Ok(g)
    }

    /// Add a partition.
    ///
    /// The partition must lie inside the usable range (else
    /// `OutOfRange`), overlap no existing partition (else
    /// `PartitionOverlap`), carry a nonzero partition GUID not already
    /// in the table (else `InvalidGuid`), and fit the capacity (else
    /// `CapacityExceeded`).  On success it is inserted at its position
    /// in the start-LBA order; on failure the table is unchanged.
    pub fn add_partition(&mut self, part: Partition) -> (r: Result<(), Error>)
        requires
            spec_gpt_wf(old(self)@),
            spec_pv_wf(part@),
            spec_pv_used(part@),
        ensures
            spec_gpt_wf(final(self)@),
            ({
                let g = old(self)@;
                let fu = spec_gpt_first_usable(g);
                let lu = spec_gpt_last_usable(g);
                let fits = spec_in_range(part@, fu as u64, lu as u64);
                let clear = forall|i: int|
                    0 <= i < g.partitions.len() ==> !spec_overlap(part@, #[trigger] g.partitions[i]);
                let fresh = part@.guid != spec_zero_guid() && (forall|i: int|
                    0 <= i < g.partitions.len() ==> part@.guid != (#[trigger] g.partitions[i]).guid);
                let room = g.partitions.len() < g.capacity;
                &&& (r is Ok <==> fits && clear && fresh && room)
                &&& r is Ok ==> final(self)@ == (GptView {
                    partitions: spec_insert_sorted(g.partitions, part@),
                    ..g
                })
                &&& r is Err ==> final(self)@ == g
                &&& r matches Err(e) ==> e == (if !fits {
                    Error::OutOfRange
                } else if !clear {
                    Error::PartitionOverlap
                } else if !fresh {
                    Error::InvalidGuid
                } else {
                    Error::CapacityExceeded
                })
            }),
    {
        proof {
            lemma_gpt_geometry_bounds(self@);
        }
        let fu = self.first_usable_lba();
        let lu = self.last_usable_lba();
        if !(fu <= part.start_lba() && part.start_lba() <= part.end_lba() && part.end_lba()
            <= lu) {
            return Err(Error::OutOfRange);
        }
        if overlaps_any(&self.partitions, &part) {
            return Err(Error::PartitionOverlap);
        }
        let part_guid = part.uuid();
        if part_guid.is_zero() || guid_used(&self.partitions, &part_guid) {
            return Err(Error::InvalidGuid);
        }
        if self.partitions.len() >= self.capacity {
            return Err(Error::CapacityExceeded);
        }
        let ghost s = spec_views(self.partitions@);
        let pos = find_insert_pos(&self.partitions, part.start_lba());
        proof {
            lemma_insert_pos_char(s, part@.start_lba);
            lemma_insert_sorted_wf(s, part@);
        }
        self.partitions.insert(pos, part);
        proof {
            assert(spec_views(self.partitions@) =~= s.insert(
                spec_insert_pos(s, part@.start_lba),
                part@,
            ));
            assert(self@ =~= GptView { partitions: spec_insert_sorted(s, part@), ..old(self)@ });
        }
        Ok(())
    }

    /// Read a table from a whole-device image with the default capacity
    /// of 128 partitions.
    pub fn from_bytes(source: &[u8], block_size: u64) -> (r: Result<Gpt, Error>)
        ensures
            r is Ok <==> spec_read_ok(source@, block_size, 128),
            r matches Ok(g) ==> spec_gpt_wf(g@) && g@ == (GptView {
                guid: spec_hdr_guid(spec_primary_block(source@, block_size)),
                partitions: spec_read_partitions(source@, block_size, 128),
                block_size,
                disk_size: source@.len() as u64,
                capacity: 128,
                minimal_align: spec_read_minimal(source@, block_size, 128),
            }),
            r matches Err(e) ==> e == spec_read_err(source@, block_size, 128),
    {
        Gpt::from_bytes_with_capacity(source, block_size, DEFAULT_PARTITIONS)
    }

    /// Read a table from a whole-device image, retaining the used
    /// entries among the first `capacity` slots of the partition array.
    ///
    /// The read algorithm: validate the Protective MBR; parse and
    /// validate the primary header at LBA 1 and CRC-check its full
    /// partition array; the same for the backup header at the last LBA;
    /// cross-check the two copies and the disk GUID; then decode the
    /// retained entries, sort them by start LBA, and check the
    /// usable-range, overlap and partition-GUID invariants.  The whole
    /// on-disk array is CRC-validated whatever `capacity` keeps.  On
    /// any failure no table is produced and the error names the first
    /// check that failed.
    #[verifier::spinoff_prover]
    #[verifier::rlimit(100)]
    pub fn from_bytes_with_capacity(source: &[u8], block_size: u64, capacity: usize) -> (r:
        Result<Gpt, Error>)
        requires
            capacity <= 0xffffffff,
        ensures
            r is Ok <==> spec_read_ok(source@, block_size, capacity as nat),
            r matches Ok(g) ==> spec_gpt_wf(g@) && g@ == (GptView {
                guid: spec_hdr_guid(spec_primary_block(source@, block_size)),
                partitions: spec_read_partitions(source@, block_size, capacity as nat),
                block_size,
                disk_size: source@.len() as u64,
                capacity: capacity as nat,
                minimal_align: spec_read_minimal(source@, block_size, capacity as nat),
            }),
            r matches Err(e) ==> e == spec_read_err(source@, block_size, capacity as nat),
    {
        let n = source.len();
        let ds = n as u64;
        let bs = block_size;
        let last = match last_lba(ds, bs) {
            Ok(l) => l,
            Err(e) => {
                return Err(e);
            },
        };
        proof {
            let dsi = ds as int;
            let bsi = bs as int;
            vstd::arithmetic::div_mod::lemma_fundamental_div_mod(dsi, bsi);
            vstd::arithmetic::div_mod::lemma_mod_bound(dsi, bsi);
            let q = dsi / bsi;
            let rem = dsi % bsi;
            assert(dsi == bsi * q + rem);
            assert((last + 1) as int * bsi == dsi - rem) by (nonlinear_arith)
                requires
                    last as int + 1 == q,
                    dsi == bsi * q + rem,
            ;
            assert((last + 1) as int * bsi <= dsi);
            assert(last as int * bsi == (last + 1) as int * bsi - bsi) by (nonlinear_arith);
        }
        let mbr_slice = slice_subrange(source, 0, 512);
        match ProtectiveMbr::read(mbr_slice) {
            Ok(_) => (),
            Err(e) => {
                return Err(e);
            },
        }
        let pb_slice = slice_subrange(source, bs as usize, (2 * bs) as usize);
        proof {
            assert(pb_slice@ == spec_primary_block(source@, bs));
        }
        let h1 = match Header::read(pb_slice, bs, 1) {
            Ok(h) => h,
            Err(e) => {
                return Err(e);
            },
        };
        proof {
            assert(h1.partitions as int * h1.entry_size as int <= 0xffffffff * 0xffffffff)
                by (nonlinear_arith)
                requires
                    h1.partitions <= 0xffffffff,
                    h1.entry_size <= 0xffffffff,
            ;
        }
        let alen = (h1.partitions as u64) * (h1.entry_size as u64);
        let astart = match h1.array_start.checked_mul(bs) {
            Some(v) => v,
            None => {
                return Err(Error::Io);
            },
        };
        let aend = match astart.checked_add(alen) {
            Some(v) => v,
            None => {
                return Err(Error::Io);
            },
        };
        if aend > ds {
            return Err(Error::Io);
        }
        let pa_slice = slice_subrange(source, astart as usize, aend as usize);
        proof {
            assert(pa_slice@ == spec_array_region(source@, bs, pb_slice@));
        }
        if crc32(pa_slice) != h1.partitions_crc32 {
            return Err(Error::BadArrayCrc);
        }
        let bb_slice = slice_subrange(source, (last * bs) as usize, ((last + 1) * bs) as usize);
        proof {
            assert(bb_slice@ == spec_backup_block(source@, bs));
        }
        let h2 = match Header::read(bb_slice, bs, last) {
            Ok(h) => h,
            Err(e) => {
                return Err(e);
            },
        };
        proof {
            assert(h2.partitions as int * h2.entry_size as int <= 0xffffffff * 0xffffffff)
                by (nonlinear_arith)
                requires
                    h2.partitions <= 0xffffffff,
                    h2.entry_size <= 0xffffffff,
            ;
        }
        let balen = (h2.partitions as u64) * (h2.entry_size as u64);
        let bstart = match h2.array_start.checked_mul(bs) {
            Some(v) => v,
            None => {
                return Err(Error::Io);
            },
        };
        let bend = match bstart.checked_add(balen) {
            Some(v) => v,
            None => {
                return Err(Error::Io);
            },
        };
        if bend > ds {
            return Err(Error::Io);
        }
        let ba_slice = slice_subrange(source, bstart as usize, bend as usize);
        proof {
            assert(ba_slice@ == spec_array_region(source@, bs, bb_slice@));
        }
        if crc32(ba_slice) != h2.partitions_crc32 {
            return Err(Error::BadArrayCrc);
        }
        if !(h1.alt_lba == last && h2.alt_lba == 1 && h1.first_usable <= h1.last_usable
            && h1.first_usable == h2.first_usable && h1.last_usable == h2.last_usable
            && h1.disk_guid.same_as(&h2.disk_guid)
            && h1.partitions_crc32 == h2.partitions_crc32) {
            return Err(Error::InconsistentHeaders);
        }
        if h1.disk_guid.is_zero() {
            return Err(Error::InvalidGuid);
        }
        let count = h1.partitions as usize;
        let esize = h1.entry_size as usize;
        proof {
            assert(count * esize == pa_slice@.len()) by (nonlinear_arith)
                requires
                    count == h1.partitions as int,
                    esize == h1.entry_size as int,
                    pa_slice@.len() == h1.partitions as int * h1.entry_size as int,
            ;
        }
        let decoded = decode_array(pa_slice, count, esize, capacity);
        let sorted = sort_partitions(decoded);
        proof {
            lemma_sort_props(spec_used_views(
                pa_slice@,
                spec_retained_slots(count as nat, capacity as nat),
                esize as nat,
            ));
            assert(spec_views(sorted@) == spec_read_partitions(
                source@,
                bs,
                capacity as nat,
            ));
        }
        if !check_all_in_range(&sorted, h1.first_usable, h1.last_usable) {
            return Err(Error::OutOfRange);
        }
        if !check_pairwise_disjoint(&sorted) {
            return Err(Error::PartitionOverlap);
        }
        if !check_guids(&sorted) {
            return Err(Error::InvalidGuid);
        }
        let ab = array_blocks(capacity as u32, 128, bs);
        if last < ab + 2 {
            return Err(Error::GeometryInvalid);
        }
        let lu_d = last - ab - 1;
        let minimal = h1.first_usable == ab + 2;
        let fu_d: u64 = if minimal {
            ab + 2
        } else {
            if ab + 2 > 2048 {
                return Err(Error::GeometryInvalid);
            }
            2048
        };
        if fu_d > lu_d {
            return Err(Error::GeometryInvalid);
        }
        let g = Gpt {
            guid: h1.disk_guid,
            partitions: sorted,
            block_size: bs,
            disk_size: ds,
            capacity,
            align: if minimal {
                Align::Minimal
            } else {
                Align::Optimal
            },
        };
        proof {
            let gv = g@;
            let rp = spec_read_partitions(source@, bs, capacity as nat);
            assert forall|i: int| 0 <= i < gv.partitions.len() implies spec_pv_wf(
                #[trigger] gv.partitions[i],
            ) && spec_pv_used(gv.partitions[i]) by {
                let dvs = spec_views(decoded@);
                let k = choose|k: int| 0 <= k < dvs.len() && gv.partitions[i] == dvs[k];
                assert(dvs[k] == decoded@[k]@);
            }
            assert(spec_read_ok(source@, bs, capacity as nat));
            assert(gv == (GptView {
                guid: spec_hdr_guid(spec_primary_block(source@, block_size)),
                partitions: rp,
                block_size,
                disk_size: source@.len() as u64,
                capacity: capacity as nat,
                minimal_align: spec_read_minimal(source@, block_size, capacity as nat),
            }));
            assert(spec_gpt_wf(gv));
        }
        Ok(g)
    }

    /// Serialize the table into `dest`, a buffer holding the whole
    /// device image.
    ///
    /// Emits, in this order: the Protective MBR at offset 0, the backup
    /// partition array, the backup header, the primary partition array,
    /// and the primary header — so a crash mid-write never leaves both
    /// headers invalid.  Bytes outside those regions keep their old
    /// values.  Fails with `OutOfRange`, leaving `dest` unchanged, when
    /// some partition lies outside the usable range this table's
    /// capacity allows.
    #[verifier::spinoff_prover]
    #[verifier::rlimit(100)]
    pub fn to_bytes(&self, dest: &mut Vec<u8>) -> (r: Result<(), Error>)
        requires
            spec_gpt_wf(self@),
            old(dest)@.len() == self@.disk_size,
        ensures
            r is Ok <==> spec_all_in_range(
                self@.partitions,
                spec_gpt_first_usable(self@) as u64,
                spec_gpt_last_usable(self@) as u64,
            ),
            r is Ok ==> final(dest)@ == spec_write_image(old(dest)@, self@),
            r is Err ==> final(dest)@ == old(dest)@,
            r matches Err(e) ==> e == Error::OutOfRange,
    {
        proof {
            lemma_gpt_geometry_bounds(self@);
            lemma_write_layout(self@);
        }
        let fu = self.first_usable_lba();
        let lu = self.last_usable_lba();
        let n = self.partitions.len();
        let mut i: usize = 0;
        while i < n
            invariant
                n == self@.partitions.len(),
                i <= n,
                self@.partitions == spec_views(self.partitions@),
                forall|j: int|
                    0 <= j < i ==> spec_in_range(#[trigger] self@.partitions[j], fu, lu),
                fu == spec_gpt_first_usable(self@) as u64,
                lu == spec_gpt_last_usable(self@) as u64,
            decreases n - i,
        {
            let p = &self.partitions[i];
            proof {
                assert(p@ == self@.partitions[i as int]);
            }
            if !(fu <= p.start_lba() && p.start_lba() <= p.end_lba() && p.end_lba() <= lu) {
                proof {
                    assert(!spec_in_range(self@.partitions[i as int], fu, lu));
                }
                return Err(Error::OutOfRange);
            }
            i = i + 1;
        }
        proof {
            assert(spec_all_in_range(
                self@.partitions,
                spec_gpt_first_usable(self@) as u64,
                spec_gpt_last_usable(self@) as u64,
            ));
            assert forall|j: int| 0 <= j < self.partitions@.len() implies spec_pv_wf(
                #[trigger] self.partitions@[j]@,
            ) by {
                assert(self@.partitions[j] == self.partitions@[j]@);
            }
        }
        let bs = self.block_size;
        let dn = dest.len();
        let last = self.disk_size / self.block_size - 1;
        let ab = array_blocks(self.capacity as u32, 128, bs);
        let mbr = ProtectiveMbr::new(last);
        mbr.write(dest);
        let ar = encode_array(&self.partitions, self.capacity);
        let parts_crc = crc32(ar.as_slice());
        let backup = Header::new(
            HeaderKind::Backup,
            self.align,
            parts_crc,
            self.capacity as u32,
            self.guid,
            128,
            self.disk_size,
            bs,
        );
        let backup_bytes = backup.write();
        proof {
            lemma_header_bytes_hv(backup);
            assert(backup_bytes@ == spec_gpt_backup_header_bytes(self@));
            assert((lu + 1) as int * bs as int == (spec_gpt_last_usable(self@) + 1)
                * self@.block_size as int);
        }
        let off_backup_array = (lu + 1) * bs;
        let off_backup_header = last * bs;
        proof {
            assert(off_backup_array <= dn && off_backup_header <= dn);
            assert(off_backup_array as int == (spec_gpt_last_usable(self@) + 1)
                * self@.block_size as int);
            assert(off_backup_header as int == spec_gpt_last_lba(self@)
                * self@.block_size as int);
        }
        write_bytes_at(dest, off_backup_array as usize, ar.as_slice());
        write_bytes_at(dest, off_backup_header as usize, backup_bytes.as_slice());
        let primary = Header::new(
            HeaderKind::Primary,
            self.align,
            parts_crc,
            self.capacity as u32,
            self.guid,
            128,
            self.disk_size,
            bs,
        );
        let primary_bytes = primary.write();
        proof {
            lemma_header_bytes_hv(primary);
            assert(primary_bytes@ == spec_gpt_primary_header_bytes(self@));
        }
        let off_primary_array = 2 * bs;
        let off_primary_header = bs;
        proof {
            assert(off_primary_array <= dn && off_primary_header <= dn);
            assert(off_primary_array as int == 2 * self@.block_size as int);
            assert(off_primary_header as int == 1 * self@.block_size as int);
        }
        write_bytes_at(dest, off_primary_array as usize, ar.as_slice());
        write_bytes_at(dest, off_primary_header as usize, primary_bytes.as_slice());
        proof {
            assert(dest@ == spec_write_image(old(dest)@, self@));
        }
        Ok(())
    }

    /// Read a table through an offset-addressed read callback with the
    /// default capacity of 128 partitions.
    pub fn from_reader_fn<R: DiskRead>(reader: &mut R, block_size: u64, disk_size: u64) -> (r:
        Result<Gpt, Error>)
        requires
            disk_size <= usize::MAX,
        ensures
            r matches Ok(g) ==> spec_gpt_wf(g@) && g@.block_size == block_size && g@.disk_size
                == disk_size && g@.capacity == 128,
            !(spec_valid_block_size(block_size) && disk_size >= 2 * block_size) ==> r == Err::<
                Gpt,
                Error,
            >(Error::GeometryInvalid),
    {
        Gpt::from_reader_fn_with_capacity(reader, block_size, disk_size, DEFAULT_PARTITIONS)
    }

    /// Read a table through an offset-addressed read callback,
    /// retaining the used entries among the first `capacity` slots of
    /// the partition array.
    ///
    /// Fetches only the metadata regions: the Protective MBR, the two
    /// header blocks, and the two partition arrays.  Whatever bytes the
    /// callback hands back are validated exactly as
    /// [`Gpt::from_bytes_with_capacity`] validates an image, so a table
    /// is produced only when they form a coherent GPT; the callback's
    /// own failures are returned as they are.
    pub fn from_reader_fn_with_capacity<R: DiskRead>(
        reader: &mut R,
        block_size: u64,
        disk_size: u64,
        capacity: usize,
    ) -> (r: Result<Gpt, Error>)
        requires
            capacity <= 0xffffffff,
            disk_size <= usize::MAX,
        ensures
            r matches Ok(g) ==> spec_gpt_wf(g@) && g@.block_size == block_size && g@.disk_size
                == disk_size && g@.capacity == capacity,
            !(spec_valid_block_size(block_size) && disk_size >= 2 * block_size) ==> r == Err::<
                Gpt,
                Error,
            >(Error::GeometryInvalid),
    {
        let ds = disk_size;
        let bs = block_size;
        let last = match last_lba(ds, bs) {
            Ok(l) => l,
            Err(e) => {
                return Err(e);
            },
        };
        proof {
            let dsi = ds as int;
            let bsi = bs as int;
            vstd::arithmetic::div_mod::lemma_fundamental_div_mod(dsi, bsi);
            vstd::arithmetic::div_mod::lemma_mod_bound(dsi, bsi);
            let q = dsi / bsi;
            let rem = dsi % bsi;
            assert((last + 1) as int * bsi == dsi - rem) by (nonlinear_arith)
                requires
                    last as int + 1 == q,
                    dsi == bsi * q + rem,
            ;
            assert(last as int * bsi == (last + 1) as int * bsi - bsi) by (nonlinear_arith);
        }
        let mut mbr_buf: Vec<u8> = Vec::new();
        crate::codec::push_zeros(&mut mbr_buf, 512);
        reader.read_at(0, &mut mbr_buf)?;
        match ProtectiveMbr::read(mbr_buf.as_slice()) {
            Ok(_) => (),
            Err(e) => {
                return Err(e);
            },
        }
        let mut pb_buf: Vec<u8> = Vec::new();
        crate::codec::push_zeros(&mut pb_buf, bs as usize);
        reader.read_at(bs, &mut pb_buf)?;
        let h1 = match Header::read(pb_buf.as_slice(), bs, 1) {
            Ok(h) => h,
            Err(e) => {
                return Err(e);
            },
        };
        proof {
            assert(h1.partitions as int * h1.entry_size as int <= 0xffffffff * 0xffffffff)
                by (nonlinear_arith)
                requires
                    h1.partitions <= 0xffffffff,
                    h1.entry_size <= 0xffffffff,
            ;
        }
        let alen = (h1.partitions as u64) * (h1.entry_size as u64);
        let astart = match h1.array_start.checked_mul(bs) {
            Some(v) => v,
            None => {
                return Err(Error::Io);
            },
        };
        match astart.checked_add(alen) {
            Some(v) => if v > ds {
                return Err(Error::Io);
            },
            None => {
                return Err(Error::Io);
            },
        }
        let mut pa_buf: Vec<u8> = Vec::new();
        crate::codec::push_zeros(&mut pa_buf, alen as usize);
        reader.read_at(astart, &mut pa_buf)?;
        if crc32(pa_buf.as_slice()) != h1.partitions_crc32 {
            return Err(Error::BadArrayCrc);
        }
        let mut bb_buf: Vec<u8> = Vec::new();
        crate::codec::push_zeros(&mut bb_buf, bs as usize);
        reader.read_at(last * bs, &mut bb_buf)?;
        let h2 = match Header::read(bb_buf.as_slice(), bs, last) {
            Ok(h) => h,
            Err(e) => {
                return Err(e);
            },
        };
        proof {
            assert(h2.partitions as int * h2.entry_size as int <= 0xffffffff * 0xffffffff)
                by (nonlinear_arith)
                requires
                    h2.partitions <= 0xffffffff,
                    h2.entry_size <= 0xffffffff,
            ;
        }
        let balen = (h2.partitions as u64) * (h2.entry_size as u64);
        let bstart = match h2.array_start.checked_mul(bs) {
            Some(v) => v,
            None => {
                return Err(Error::Io);
            },
        };
        match bstart.checked_add(balen) {
            Some(v) => if v > ds {
                return Err(Error::Io);
            },
            None => {
                return Err(Error::Io);
            },
        }
        let mut ba_buf: Vec<u8> = Vec::new();
        crate::codec::push_zeros(&mut ba_buf, balen as usize);
        reader.read_at(bstart, &mut ba_buf)?;
        if crc32(ba_buf.as_slice()) != h2.partitions_crc32 {
            return Err(Error::BadArrayCrc);
        }
        if !(h1.alt_lba == last && h2.alt_lba == 1 && h1.first_usable <= h1.last_usable
            && h1.first_usable == h2.first_usable && h1.last_usable == h2.last_usable
            && h1.disk_guid.same_as(&h2.disk_guid)
            && h1.partitions_crc32 == h2.partitions_crc32) {
            return Err(Error::InconsistentHeaders);
        }
        if h1.disk_guid.is_zero() {
            return Err(Error::InvalidGuid);
        }
        let count = h1.partitions as usize;
        let esize = h1.entry_size as usize;
        proof {
            assert(count * esize == pa_buf@.len()) by (nonlinear_arith)
                requires
                    count == h1.partitions as int,
                    esize == h1.entry_size as int,
                    pa_buf@.len() == h1.partitions as int * h1.entry_size as int,
            ;
        }
        let decoded = decode_array(pa_buf.as_slice(), count, esize, capacity);
        let sorted = sort_partitions(decoded);
        proof {
            lemma_sort_props(spec_used_views(
                pa_buf@,
                spec_retained_slots(count as nat, capacity as nat),
                esize as nat,
            ));
        }
        if !check_all_in_range(&sorted, h1.first_usable, h1.last_usable) {
            return Err(Error::OutOfRange);
        }
        if !check_pairwise_disjoint(&sorted) {
            return Err(Error::PartitionOverlap);
        }
        if !check_guids(&sorted) {
            return Err(Error::InvalidGuid);
        }
        let ab = array_blocks(capacity as u32, 128, bs);
        if last < ab + 2 {
            return Err(Error::GeometryInvalid);
        }
        let lu_d = last - ab - 1;
        let minimal = h1.first_usable == ab + 2;
        let fu_d: u64 = if minimal {
            ab + 2
        } else {
            if ab + 2 > 2048 {
                return Err(Error::GeometryInvalid);
            }
            2048
        };
        if fu_d > lu_d {
            return Err(Error::GeometryInvalid);
        }
        let g = Gpt {
            guid: h1.disk_guid,
            partitions: sorted,
            block_size: bs,
            disk_size: ds,
            capacity,
            align: if minimal {
                Align::Minimal
            } else {
                Align::Optimal
            },
        };
        proof {
            let gv = g@;
            assert forall|i: int| 0 <= i < gv.partitions.len() implies spec_pv_wf(
                #[trigger] gv.partitions[i],
            ) && spec_pv_used(gv.partitions[i]) by {
                let dvs = spec_views(decoded@);
                let k = choose|k: int| 0 <= k < dvs.len() && gv.partitions[i] == dvs[k];
                assert(dvs[k] == decoded@[k]@);
            }
            assert(spec_gpt_wf(gv));
        }
        Ok(g)
    }

    /// Write the table through an offset-addressed write callback, in
    /// the same order as [`Gpt::to_bytes`]: the Protective MBR, the
    /// backup array, the backup header, the primary array, the primary
    /// header.
    ///
    /// Fails with `OutOfRange`, before anything is written, when some
    /// partition lies outside the usable range; a failure the callback
    /// reports is returned as it is, and the state of the device is
    /// then whatever the callback left.
    pub fn to_writer_fn<W: DiskWrite>(&self, writer: &mut W) -> (r: Result<(), Error>)
        requires
            spec_gpt_wf(self@),
        ensures
            !spec_all_in_range(
                self@.partitions,
                spec_gpt_first_usable(self@) as u64,
                spec_gpt_last_usable(self@) as u64,
            ) ==> r == Err::<(), Error>(Error::OutOfRange),
    {
        proof {
            lemma_gpt_geometry_bounds(self@);
            lemma_write_layout(self@);
        }
        let fu = self.first_usable_lba();
        let lu = self.last_usable_lba();
        if !check_all_in_range(&self.partitions, fu, lu) {
            return Err(Error::OutOfRange);
        }
        proof {
            assert forall|j: int| 0 <= j < self.partitions@.len() implies spec_pv_wf(
                #[trigger] self.partitions@[j]@,
            ) by {
                assert(self@.partitions[j] == self.partitions@[j]@);
            }
        }
        let bs = self.block_size;
        let last = self.disk_size / self.block_size - 1;
        let mbr = ProtectiveMbr::new(last);
        let mbr_bytes = mbr.to_bytes();
        writer.write_at(0, mbr_bytes.as_slice())?;
        let ar = encode_array(&self.partitions, self.capacity);
        let parts_crc = crc32(ar.as_slice());
        let backup = Header::new(
            HeaderKind::Backup,
            self.align,
            parts_crc,
            self.capacity as u32,
            self.guid,
            128,
            self.disk_size,
            bs,
        );
        let backup_bytes = backup.write();
        writer.write_at((lu + 1) * bs, ar.as_slice())?;
        writer.write_at(last * bs, backup_bytes.as_slice())?;
        let primary = Header::new(
            HeaderKind::Primary,
            self.align,
            parts_crc,
            self.capacity as u32,
            self.guid,
            128,
            self.disk_size,
            bs,
        );
        let primary_bytes = primary.write();
        writer.write_at(2 * bs, ar.as_slice())?;
        writer.write_at(bs, primary_bytes.as_slice())?;
        Ok(())
    }

    /// Set the attribute flags of the partition at `index` in the
    /// start-LBA order.
    pub fn set_partition_attributes(&mut self, index: usize, attributes: u64)
        requires
            spec_gpt_wf(old(self)@),
            index < old(self)@.partitions.len(),
        ensures
            spec_gpt_wf(final(self)@),
            final(self)@ == (GptView {
                partitions: old(self)@.partitions.update(
                    index as int,
                    PartitionView { attributes, ..old(self)@.partitions[index as int] },
                ),
                ..old(self)@
            }),
    {
        let ghost s = self@.partitions;
        self.partitions[index].set_attributes(attributes);
        proof {
            let t = self@.partitions;
            assert(spec_views(self.partitions@) =~= s.update(
                index as int,
                PartitionView { attributes, ..s[index as int] },
            ));
            assert(self@ =~= GptView {
                partitions: s.update(
                    index as int,
                    PartitionView { attributes, ..s[index as int] },
                ),
                ..old(self)@
            });
            lemma_update_keeps_wf(old(self)@, self@, index as int);
        }
    }

    /// Rename the partition at `index` in the start-LBA order, under
    /// the same length rule as [`PartitionBuilder::name`]; on rejection
    /// the table is unchanged.
    pub fn rename_partition(&mut self, index: usize, name: &str) -> (r: Result<(), Error>)
        requires
            spec_gpt_wf(old(self)@),
            index < old(self)@.partitions.len(),
        ensures
            spec_gpt_wf(final(self)@),
            r is Ok <==> spec_trim_nuls(utf16_of(name@)).len() <= 36,
            r is Ok ==> final(self)@ == (GptView {
                partitions: old(self)@.partitions.update(
                    index as int,
                    PartitionView {
                        name: spec_trim_nuls(utf16_of(name@)),
                        ..old(self)@.partitions[index as int]
                    },
                ),
                ..old(self)@
            }),
            r is Err ==> final(self)@ == old(self)@,
            r matches Err(e) ==> e == Error::NameTooLong,
    {
        let ghost s = self@.partitions;
        let r = self.partitions[index].set_name(name);
        proof {
            let t = self@.partitions;
            if r is Ok {
                assert(spec_views(self.partitions@) =~= s.update(
                    index as int,
                    PartitionView {
                        name: spec_trim_nuls(utf16_of(name@)),
                        ..s[index as int]
                    },
                ));
                assert(self@ =~= GptView {
                    partitions: s.update(
                        index as int,
                        PartitionView {
                            name: spec_trim_nuls(utf16_of(name@)),
                            ..s[index as int]
                        },
                    ),
                    ..old(self)@
                });
                lemma_update_keeps_wf(old(self)@, self@, index as int);
            } else {
                assert(spec_views(self.partitions@) =~= s);
                assert(self@ =~= old(self)@);
            }
        }
        r
    }

    /// Remove and return the partition at `index` in the start-LBA
    /// order.  Indices are invalidated by any mutation.
    pub fn remove_partition(&mut self, index: usize) -> (r: Partition)
        requires
            spec_gpt_wf(old(self)@),
            index < old(self)@.partitions.len(),
        ensures
            spec_gpt_wf(final(self)@),
            r@ == old(self)@.partitions[index as int],
            final(self)@ == (GptView {
                partitions: old(self)@.partitions.remove(index as int),
                ..old(self)@
            }),
    {
        let ghost s = spec_views(self.partitions@);
        let p = self.partitions.remove(index);
        proof {
            assert(spec_views(self.partitions@) =~= s.remove(index as int));
            assert(self@ =~= GptView { partitions: s.remove(index as int), ..old(self)@ });
            let t = s.remove(index as int);
            assert forall|i: int, j: int| 0 <= i < j < t.len() implies t[i].start_lba
                <= t[j].start_lba && !spec_overlap(t[i], t[j]) && t[i].guid != t[j].guid by {
                let si: int = if i < index {
                    i
                } else {
                    i + 1
                };
                let sj: int = if j < index {
                    j
                } else {
                    j + 1
                };
                assert(t[i] == s[si] && t[j] == s[sj]);
            }
            assert forall|k: int| 0 <= k < t.len() implies (#[trigger] t[k]).guid
                != spec_zero_guid() by {
                let sk: int = if k < index {
                    k
                } else {
                    k + 1
                };
                assert(t[k] == s[sk]);
            }
        }
        p
    }
}

/// The CRC32 of the partition array this table writes.
pub open spec fn spec_gpt_array_crc(g: GptView) -> u32 {
    crc32_of(spec_array_bytes(g.partitions, g.capacity))
}

/// The on-disk bytes of the primary header this table writes.
pub open spec fn spec_gpt_primary_header_bytes(g: GptView) -> Seq<u8> {
    spec_hv_bytes(
        1u64,
        spec_gpt_last_lba(g) as u64,
        spec_gpt_first_usable(g) as u64,
        spec_gpt_last_usable(g) as u64,
        g.guid,
        2u64,
        g.capacity as u32,
        128u32,
        spec_gpt_array_crc(g),
    )
}

/// The on-disk bytes of the backup header this table writes.
pub open spec fn spec_gpt_backup_header_bytes(g: GptView) -> Seq<u8> {
    spec_hv_bytes(
        spec_gpt_last_lba(g) as u64,
        1u64,
        spec_gpt_first_usable(g) as u64,
        spec_gpt_last_usable(g) as u64,
        g.guid,
        (spec_gpt_last_usable(g) + 1) as u64,
        g.capacity as u32,
        128u32,
        spec_gpt_array_crc(g),
    )
}

/// The device image after this table is written over `orig`: the
/// canonical Protective MBR at offset 0, then the backup array, the
/// backup header, the primary array and the primary header, each at its
/// place; every other byte of `orig` is untouched.
pub open spec fn spec_write_image(orig: Seq<u8>, g: GptView) -> Seq<u8> {
    let bs = g.block_size as int;
    let last = spec_gpt_last_lba(g);
    let lu = spec_gpt_last_usable(g);
    let ar = spec_array_bytes(g.partitions, g.capacity);
    let s1 = spec_splice(orig, 0, spec_canonical_mbr(last as u64));
    let s2 = spec_splice(s1, (lu + 1) * bs, ar);
    let s3 = spec_splice(s2, last * bs, spec_gpt_backup_header_bytes(g));
    let s4 = spec_splice(s3, 2 * bs, ar);
    spec_splice(s4, 1 * bs, spec_gpt_primary_header_bytes(g))
}

/// The byte bounds of every region the write path touches.
proof fn lemma_write_layout(g: GptView)
    requires
        spec_gpt_wf(g),
    ensures
        512 <= g.disk_size,
        g.block_size as int + 92 <= g.disk_size,
        2 * g.block_size as int + 128 * g.capacity as int <= g.disk_size,
        2 * g.block_size as int + 128 * g.capacity as int <= (spec_gpt_last_usable(g) + 1)
            * g.block_size as int,
        (spec_gpt_last_usable(g) + 1) * g.block_size as int + 128 * g.capacity as int
            <= spec_gpt_last_lba(g) * g.block_size as int,
        spec_gpt_last_lba(g) * g.block_size as int + 92 <= g.disk_size,
        128 * g.capacity as int <= spec_gpt_array_blocks(g) * g.block_size as int,
        (spec_gpt_last_lba(g) + 1) * g.block_size as int <= g.disk_size,
{
    lemma_gpt_geometry_bounds(g);
    let bs = g.block_size as int;
    let ds = g.disk_size as int;
    let cap = g.capacity as int;
    let last = spec_gpt_last_lba(g);
    let ab = spec_gpt_array_blocks(g);
    let fu = spec_gpt_first_usable(g);
    let lu = spec_gpt_last_usable(g);
    let m = crate::geometry::spec_array_reserved_bytes(cap, 128);
    assert(m >= 128 * cap && m >= 16384);
    vstd::arithmetic::div_mod::lemma_fundamental_div_mod(m + bs - 1, bs);
    assert(ab == (m + bs - 1) / bs);
    assert(0 <= (m + bs - 1) % bs < bs) by {
        vstd::arithmetic::div_mod::lemma_mod_bound(m + bs - 1, bs);
    }
    assert(ab * bs >= m);
    vstd::arithmetic::div_mod::lemma_fundamental_div_mod(ds, bs);
    assert(0 <= ds % bs < bs) by {
        vstd::arithmetic::div_mod::lemma_mod_bound(ds, bs);
    }
    let q = ds / bs;
    let rem = ds % bs;
    assert(ds == bs * q + rem);
    assert((last + 1) * bs == ds - rem) by (nonlinear_arith)
        requires
            last + 1 == q,
            ds == bs * q + rem,
    ;
    assert((last + 1) * bs <= ds);
    assert(last * bs == (last + 1) * bs - bs) by (nonlinear_arith);
    assert(last * bs + 92 <= ds);
    // backup array: (lu + 1) + ab == last
    assert(lu + 1 + ab == last);
    assert((lu + 1) * bs + ab * bs == last * bs) by (nonlinear_arith)
        requires
            lu + 1 + ab == last,
    ;
    assert((lu + 1) * bs + 128 * cap <= last * bs);
    // primary array: 2 + ab <= fu <= lu <= last
    assert(2 + ab <= fu <= lu);
    assert((2 + ab) * bs <= (last + 1) * bs) by (nonlinear_arith)
        requires
            2 + ab <= last + 1,
            bs >= 512,
    ;
    assert(2 * bs + ab * bs == (2 + ab) * bs) by (nonlinear_arith);
    assert(2 * bs + 128 * cap <= ds);
    assert((2 + ab) * bs <= (lu + 1) * bs) by (nonlinear_arith)
        requires
            2 + ab <= lu + 1,
            bs >= 512,
    ;
    assert(2 * bs + 128 * cap <= (lu + 1) * bs);
}

/// The last LBA of an image: one less than its whole blocks.
pub open spec fn spec_img_last(src: Seq<u8>, bs: u64) -> int {
    src.len() as int / bs as int - 1
}

/// The primary header block of an image (LBA 1).
pub open spec fn spec_primary_block(src: Seq<u8>, bs: u64) -> Seq<u8> {
    src.subrange(bs as int, 2 * bs as int)
}

/// The backup header block of an image (its last LBA).
pub open spec fn spec_backup_block(src: Seq<u8>, bs: u64) -> Seq<u8> {
    src.subrange(spec_img_last(src, bs) * bs as int, (spec_img_last(src, bs) + 1) * bs as int)
}

/// Whether the partition array a header block names lies inside the
/// image.
pub open spec fn spec_array_region_ok(src: Seq<u8>, bs: u64, hb: Seq<u8>) -> bool {
    spec_hdr_array_start(hb) as int * bs as int + spec_hdr_count(hb) as int * spec_hdr_esize(
        hb,
    ) as int <= src.len()
}

/// The partition array bytes a header block names.
pub open spec fn spec_array_region(src: Seq<u8>, bs: u64, hb: Seq<u8>) -> Seq<u8> {
    let start = spec_hdr_array_start(hb) as int * bs as int;
    let len = spec_hdr_count(hb) as int * spec_hdr_esize(hb) as int;
    src.subrange(start, start + len)
}

/// Whether the image's size and block size admit a GPT at all.
pub open spec fn spec_read_geometry_ok(src: Seq<u8>, bs: u64) -> bool {
    spec_valid_block_size(bs) && src.len() >= 2 * bs as int
}

/// Whether the primary header's first-usable field names the minimal
/// alignment for a table of capacity `cap`.
pub open spec fn spec_read_minimal(src: Seq<u8>, bs: u64, cap: nat) -> bool {
    spec_hdr_fu(spec_primary_block(src, bs)) == spec_array_blocks(cap as int, 128, bs) + 2
}

/// Whether a table of capacity `cap`, aligned as detected from the
/// image, fits the image's geometry.
pub open spec fn spec_read_layout_ok(src: Seq<u8>, bs: u64, cap: nat) -> bool {
    let last = spec_img_last(src, bs);
    let ab = spec_array_blocks(cap as int, 128, bs);
    let minimal = spec_read_minimal(src, bs, cap);
    let fu_d: int = if minimal {
        ab + 2
    } else {
        2048
    };
    &&& last >= ab + 2
    &&& (minimal || ab + 2 <= 2048)
    &&& fu_d <= last - ab - 1
}

/// The cross-field checks between the primary and backup headers: the
/// two copies point at each other, the usable range is ordered, and
/// they agree on the usable range, the disk GUID and the array CRC.
/// (Their revisions agree trivially: each was already validated to hold
/// the one supported revision.)
pub open spec fn spec_read_cross_ok(src: Seq<u8>, bs: u64) -> bool {
    let pb = spec_primary_block(src, bs);
    let bb = spec_backup_block(src, bs);
    &&& spec_hdr_alt(pb) == spec_img_last(src, bs)
    &&& spec_hdr_alt(bb) == 1
    &&& spec_hdr_fu(pb) <= spec_hdr_lu(pb)
    &&& spec_hdr_fu(pb) == spec_hdr_fu(bb)
    &&& spec_hdr_lu(pb) == spec_hdr_lu(bb)
    &&& spec_hdr_guid(pb) == spec_hdr_guid(bb)
    &&& spec_hdr_pcrc(pb) == spec_hdr_pcrc(bb)
}

/// The partitions a read of the image yields: the used entries among
/// the first `cap` slots of the primary array, in slot order, sorted by
/// start LBA.  Later slots are CRC-validated but not retained.
pub open spec fn spec_read_partitions(src: Seq<u8>, bs: u64, cap: nat) -> Seq<PartitionView> {
    let pb = spec_primary_block(src, bs);
    spec_sort_by_start(
        spec_used_views(
            spec_array_region(src, bs, pb),
            spec_retained_slots(spec_hdr_count(pb) as nat, cap),
            spec_hdr_esize(pb) as nat,
        ),
    )
}

/// Whether reading the image with capacity `cap` succeeds: every step
/// of the read algorithm passes.
pub open spec fn spec_read_ok(src: Seq<u8>, bs: u64, cap: nat) -> bool {
    let pb = spec_primary_block(src, bs);
    let bb = spec_backup_block(src, bs);
    let last = spec_img_last(src, bs);
    &&& spec_read_geometry_ok(src, bs)
    &&& spec_mbr_valid(src.subrange(0, 512))
    &&& spec_header_ok(pb, bs, 1)
    &&& spec_array_region_ok(src, bs, pb)
    &&& crc32_of(spec_array_region(src, bs, pb)) == spec_hdr_pcrc(pb)
    &&& spec_header_ok(bb, bs, last as u64)
    &&& spec_array_region_ok(src, bs, bb)
    &&& crc32_of(spec_array_region(src, bs, bb)) == spec_hdr_pcrc(bb)
    &&& spec_read_cross_ok(src, bs)
    &&& spec_hdr_guid(pb) != spec_zero_guid()
    &&& spec_all_in_range(
        spec_read_partitions(src, bs, cap),
        spec_hdr_fu(pb),
        spec_hdr_lu(pb),
    )
    &&& spec_pairwise_disjoint(spec_read_partitions(src, bs, cap))
    &&& spec_guids_ok(spec_read_partitions(src, bs, cap))
    &&& spec_read_layout_ok(src, bs, cap)
}

/// The error a failed read reports: the first step of the read
/// algorithm that fails names it.
pub open spec fn spec_read_err(src: Seq<u8>, bs: u64, cap: nat) -> Error {
    let pb = spec_primary_block(src, bs);
    let bb = spec_backup_block(src, bs);
    let last = spec_img_last(src, bs);
    if !spec_read_geometry_ok(src, bs) {
        Error::GeometryInvalid
    } else if !spec_mbr_valid(src.subrange(0, 512)) {
        Error::InvalidMbr
    } else if !spec_header_ok(pb, bs, 1) {
        spec_header_err(pb, bs, 1)
    } else if !spec_array_region_ok(src, bs, pb) {
        Error::Io
    } else if crc32_of(spec_array_region(src, bs, pb)) != spec_hdr_pcrc(pb) {
        Error::BadArrayCrc
    } else if !spec_header_ok(bb, bs, last as u64) {
        spec_header_err(bb, bs, last as u64)
    } else if !spec_array_region_ok(src, bs, bb) {
        Error::Io
    } else if crc32_of(spec_array_region(src, bs, bb)) != spec_hdr_pcrc(bb) {
        Error::BadArrayCrc
    } else if !spec_read_cross_ok(src, bs) {
        Error::InconsistentHeaders
    } else if spec_hdr_guid(pb) == spec_zero_guid() {
        Error::InvalidGuid
    } else if !spec_all_in_range(
        spec_read_partitions(src, bs, cap),
        spec_hdr_fu(pb),
        spec_hdr_lu(pb),
    ) {
        Error::OutOfRange
    } else if !spec_pairwise_disjoint(spec_read_partitions(src, bs, cap)) {
        Error::PartitionOverlap
    } else if !spec_guids_ok(spec_read_partitions(src, bs, cap)) {
        Error::InvalidGuid
    } else {
        Error::GeometryInvalid
    }
}

/// Whether an empty 128-slot table with optimal alignment fits a device
/// of this geometry.
pub open spec fn spec_empty_geometry_ok(block_size: u64, disk_size: u64) -> bool {
    &&& spec_valid_block_size(block_size)
    &&& disk_size >= 2 * block_size
    &&& spec_array_blocks(128, 128, block_size) + 2 <= 2048
    &&& 2048 <= spec_last_lba(disk_size, block_size) - spec_array_blocks(128, 128, block_size)
        - 1
}

/// Bounds that let the geometry of a well-formed table be computed in
/// 64-bit arithmetic.
proof fn lemma_gpt_geometry_bounds(g: GptView)
    requires
        spec_gpt_wf(g),
    ensures
        g.capacity as int * 128 + g.block_size as int <= u64::MAX,
        g.block_size as int + 16384 <= u64::MAX,
        1 <= spec_gpt_array_blocks(g),
        spec_gpt_array_blocks(g) + 2 <= spec_gpt_last_lba(g),
        spec_gpt_last_lba(g) <= u64::MAX,
        0 <= spec_gpt_last_usable(g) <= u64::MAX,
        0 <= spec_gpt_first_usable(g) <= u64::MAX,
{
    let bs = g.block_size as int;
    let ds = g.disk_size as int;
    let cap = g.capacity as int;
    assert(ds / bs - 1 <= u64::MAX && ds / bs >= 2) by (nonlinear_arith)
        requires
            bs >= 512,
            ds >= 2 * bs,
            ds <= u64::MAX,
    ;
    assert(cap * 128 <= 0xffffffff * 128);
    assert(2 * bs <= ds <= u64::MAX);
    assert(cap * 128 + bs <= u64::MAX);
    let m = crate::geometry::spec_array_reserved_bytes(cap, 128);
    assert(m >= 16384);
    assert((m + bs - 1) / bs >= 1) by (nonlinear_arith)
        requires
            m >= 16384,
            bs >= 512,
    ;
    assert(spec_array_blocks(cap, 128, g.block_size) == (m + bs - 1) / bs);
}

/// Updating one partition without touching its extent, GUIDs, or its
/// name's validity keeps the table invariant.
proof fn lemma_update_keeps_wf(g: GptView, g2: GptView, index: int)
    requires
        spec_gpt_wf(g),
        0 <= index < g.partitions.len(),
        g2 == (GptView { partitions: g2.partitions, ..g }),
        g2.partitions.len() == g.partitions.len(),
        forall|k: int|
            0 <= k < g.partitions.len() && k != index ==> g2.partitions[k] == g.partitions[k],
        ({
            let pv = g.partitions[index];
            let pv2 = g2.partitions[index];
            &&& pv2.type_guid == pv.type_guid
            &&& pv2.guid == pv.guid
            &&& pv2.start_lba == pv.start_lba
            &&& pv2.end_lba == pv.end_lba
            &&& spec_pv_wf(pv2)
        }),
    ensures
        spec_gpt_wf(g2),
{
    let s = g.partitions;
    let t = g2.partitions;
    assert forall|i: int, j: int| 0 <= i < j < t.len() implies t[i].start_lba
        <= t[j].start_lba && !spec_overlap(t[i], t[j]) && t[i].guid != t[j].guid by {
        if i != index {
            assert(t[i] == s[i]);
        }
        if j != index {
            assert(t[j] == s[j]);
        }
        assert(t[i].start_lba == s[i].start_lba && t[i].end_lba == s[i].end_lba && t[i].guid
            == s[i].guid);
        assert(t[j].start_lba == s[j].start_lba && t[j].end_lba == s[j].end_lba && t[j].guid
            == s[j].guid);
        assert(s[i].start_lba <= s[j].start_lba);
        assert(!spec_overlap(s[i], s[j]));
        assert(s[i].guid != s[j].guid);
    }
    assert forall|k: int| 0 <= k < t.len() implies spec_pv_wf(#[trigger] t[k]) && spec_pv_used(
        t[k],
    ) && t[k].guid != spec_zero_guid() by {
        if k != index {
            assert(t[k] == s[k]);
        } else {
            assert(spec_pv_used(s[index]) && s[index].guid != spec_zero_guid());
        }
    }
}

/// The overlap-detection law: in a well-formed table — so in any table
/// that `add_partition` and the read path produce — no two partitions
/// share a logical block.
pub proof fn lemma_admitted_partitions_disjoint(g: GptView, i: int, j: int)
    requires
        spec_gpt_wf(g),
        0 <= i < j < g.partitions.len(),
    ensures
        !spec_overlap(g.partitions[i], g.partitions[j]),
{
}

/// Sorting an already sorted sequence gives it back.
pub proof fn lemma_sort_of_sorted_id(s: Seq<PartitionView>)
    requires
        spec_sorted_by_start(s),
    ensures
        spec_sort_by_start(s) == s,
    decreases s.len(),
{
    if s.len() > 0 {
        let rest = s.drop_last();
        lemma_sort_of_sorted_id(rest);
        lemma_insert_pos_char(rest, s.last().start_lba);
        let pos = spec_insert_pos(rest, s.last().start_lba);
        if pos < rest.len() {
            assert(rest[pos].start_lba <= s.last().start_lba);
        }
        assert(pos == rest.len());
        assert(rest.insert(pos, s.last()) =~= s);
    }
}

/// Where every byte of the written image comes from: each region holds
/// its segment, every other byte keeps its old value.
#[verifier::rlimit(100)]
#[verifier::spinoff_prover]
pub proof fn lemma_write_image_layout(orig: Seq<u8>, g: GptView)
    requires
        spec_gpt_wf(g),
        orig.len() == g.disk_size,
    ensures
        ({
            let bs = g.block_size as int;
            let last = spec_gpt_last_lba(g);
            let lu = spec_gpt_last_usable(g);
            let l = 128 * g.capacity as int;
            let img = spec_write_image(orig, g);
            &&& img.len() == orig.len()
            &&& img.subrange(0, 512) == spec_canonical_mbr(last as u64)
            &&& img.subrange(bs, bs + 92) == spec_gpt_primary_header_bytes(g)
            &&& img.subrange(2 * bs, 2 * bs + l) == spec_array_bytes(g.partitions, g.capacity)
            &&& img.subrange((lu + 1) * bs, (lu + 1) * bs + l) == spec_array_bytes(
                g.partitions,
                g.capacity,
            )
            &&& img.subrange(last * bs, last * bs + 92) == spec_gpt_backup_header_bytes(g)
            &&& forall|j: int|
                0 <= j < img.len() && !(0 <= j < 512) && !(bs <= j < bs + 92) && !(2 * bs <= j
                    < 2 * bs + l) && !((lu + 1) * bs <= j < (lu + 1) * bs + l) && !(last * bs
                    <= j < last * bs + 92) ==> img[j] == orig[j]
        }),
{
    lemma_gpt_geometry_bounds(g);
    lemma_write_layout(g);
    let bs = g.block_size as int;
    let last = spec_gpt_last_lba(g);
    let lu = spec_gpt_last_usable(g);
    let fu = spec_gpt_first_usable(g);
    let cap32 = g.capacity as u32;
    let l = 128 * g.capacity as int;
    let mb = spec_canonical_mbr(last as u64);
    let ar = spec_array_bytes(g.partitions, g.capacity);
    let ph = spec_gpt_primary_header_bytes(g);
    let bh = spec_gpt_backup_header_bytes(g);
    let pcrc = spec_gpt_array_crc(g);
    crate::mbr::lemma_canonical_mbr_valid(last as u64);
    lemma_array_bytes_len(g.partitions, g.capacity);
    crate::header::lemma_hv_bytes_len(
        1u64,
        last as u64,
        fu as u64,
        lu as u64,
        g.guid,
        2u64,
        cap32,
        128u32,
        pcrc,
    );
    crate::header::lemma_hv_bytes_len(
        last as u64,
        1u64,
        fu as u64,
        lu as u64,
        g.guid,
        (lu + 1) as u64,
        cap32,
        128u32,
        pcrc,
    );
    let s1 = spec_splice(orig, 0, mb);
    let s2 = spec_splice(s1, (lu + 1) * bs, ar);
    let s3 = spec_splice(s2, last * bs, bh);
    let s4 = spec_splice(s3, 2 * bs, ar);
    let img = spec_splice(s4, 1 * bs, ph);
    crate::codec::lemma_splice_len(orig, 0, mb);
    crate::codec::lemma_splice_len(s1, (lu + 1) * bs, ar);
    crate::codec::lemma_splice_len(s2, last * bs, bh);
    crate::codec::lemma_splice_len(s3, 2 * bs, ar);
    crate::codec::lemma_splice_len(s4, 1 * bs, ph);
    assert(img == spec_write_image(orig, g));
    assert(img.subrange(0, 512) =~= mb);
    assert(img.subrange(bs, bs + 92) =~= ph);
    assert(img.subrange(2 * bs, 2 * bs + l) =~= ar);
    assert(img.subrange((lu + 1) * bs, (lu + 1) * bs + l) =~= ar);
    assert(img.subrange(last * bs, last * bs + 92) =~= bh);
}

/// The written image depends only on the disk GUID, the partitions, the
/// geometry, the capacity, and the first usable LBA the alignment
/// yields — not on the alignment flag itself.
pub proof fn lemma_write_image_congruence(orig: Seq<u8>, g1: GptView, g2: GptView)
    requires
        g1.guid == g2.guid,
        g1.partitions == g2.partitions,
        g1.block_size == g2.block_size,
        g1.disk_size == g2.disk_size,
        g1.capacity == g2.capacity,
        spec_gpt_first_usable(g1) == spec_gpt_first_usable(g2),
    ensures
        spec_write_image(orig, g1) == spec_write_image(orig, g2),
{
}

/// The disk round-trip law, write then read: a well-formed table whose
/// partitions lie in its usable range writes, over any image of its
/// device size, an image that reads back at the same capacity with the
/// same disk GUID, the same partitions in the same order, and a first
/// usable LBA that names the same layout.
#[verifier::rlimit(100)]
#[verifier::spinoff_prover]
pub proof fn lemma_disk_roundtrip(orig: Seq<u8>, g: GptView)
    requires
        spec_gpt_wf(g),
        orig.len() == g.disk_size,
        spec_all_in_range(
            g.partitions,
            spec_gpt_first_usable(g) as u64,
            spec_gpt_last_usable(g) as u64,
        ),
    ensures
        ({
            let img = spec_write_image(orig, g);
            &&& spec_read_ok(img, g.block_size, g.capacity)
            &&& spec_hdr_guid(spec_primary_block(img, g.block_size)) == g.guid
            &&& spec_read_partitions(img, g.block_size, g.capacity) == g.partitions
            &&& spec_read_minimal(img, g.block_size, g.capacity) == (spec_gpt_first_usable(g)
                == spec_gpt_array_blocks(g) + 2)
        }),
{
    lemma_gpt_geometry_bounds(g);
    lemma_write_layout(g);
    lemma_write_image_layout(orig, g);
    let bs = g.block_size;
    let bsi = bs as int;
    let cap = g.capacity;
    let cap32 = g.capacity as u32;
    let last = spec_gpt_last_lba(g);
    let lu = spec_gpt_last_usable(g);
    let fu = spec_gpt_first_usable(g);
    let ab = spec_gpt_array_blocks(g);
    let l = 128 * g.capacity as int;
    let ar = spec_array_bytes(g.partitions, g.capacity);
    let pcrc = spec_gpt_array_crc(g);
    let img = spec_write_image(orig, g);
    assert((128u32 & (128u32 - 1) as u32) == 0u32) by (bit_vector);
    assert(crate::header::spec_entry_size_ok(128u32));
    assert((last + 1) * bsi - last * bsi == bsi) by (nonlinear_arith);
    assert(spec_img_last(img, bs) == last);
    assert(spec_read_geometry_ok(img, bs));
    // the Protective MBR region
    crate::mbr::lemma_canonical_mbr_valid(last as u64);
    assert(img.subrange(0, 512) == spec_canonical_mbr(last as u64));
    // the primary header
    let pb = spec_primary_block(img, bs);
    assert(pb.len() == bsi);
    assert(pb.take(92) =~= img.subrange(bsi, bsi + 92));
    crate::header::lemma_hv_roundtrip(
        1u64,
        last as u64,
        fu as u64,
        lu as u64,
        g.guid,
        2u64,
        cap32,
        128u32,
        pcrc,
        pb,
        bs,
    );
    assert(spec_header_ok(pb, bs, 1));
    // the primary array region
    assert(spec_hdr_array_start(pb) == 2 && spec_hdr_count(pb) == cap32 && spec_hdr_esize(pb)
        == 128);
    assert(spec_array_region_ok(img, bs, pb));
    assert(spec_array_region(img, bs, pb) =~= img.subrange(2 * bsi, 2 * bsi + l));
    assert(crc32_of(spec_array_region(img, bs, pb)) == pcrc);
    // the backup header
    let bb = spec_backup_block(img, bs);
    assert(bb.len() == bsi);
    assert(bb.take(92) =~= img.subrange(last * bsi, last * bsi + 92));
    crate::header::lemma_hv_roundtrip(
        last as u64,
        1u64,
        fu as u64,
        lu as u64,
        g.guid,
        (lu + 1) as u64,
        cap32,
        128u32,
        pcrc,
        bb,
        bs,
    );
    assert(spec_header_ok(bb, bs, last as u64));
    // the backup array region
    assert(spec_array_region_ok(img, bs, bb));
    assert(spec_array_region(img, bs, bb) =~= img.subrange(
        (lu + 1) * bsi,
        (lu + 1) * bsi + l,
    ));
    assert(crc32_of(spec_array_region(img, bs, bb)) == pcrc);
    // cross-checks
    assert(spec_read_cross_ok(img, bs));
    // the partitions read back in order
    lemma_array_roundtrip(g.partitions, g.capacity, g.capacity);
    lemma_sort_of_sorted_id(g.partitions);
    assert(spec_read_partitions(img, bs, cap) == g.partitions);
    // range, overlap, and layout
    assert(spec_all_in_range(spec_read_partitions(img, bs, cap), spec_hdr_fu(pb), spec_hdr_lu(
        pb,
    )));
    assert(spec_read_minimal(img, bs, cap) == (fu == ab + 2));
    assert(spec_read_layout_ok(img, bs, cap));
}

/// The disk round-trip law, bytes: writing the table that a written
/// image reads back over that same image reproduces it byte for byte.
#[verifier::rlimit(100)]
#[verifier::spinoff_prover]
pub proof fn lemma_disk_roundtrip_bytes(orig: Seq<u8>, g: GptView, g2: GptView)
    requires
        spec_gpt_wf(g),
        orig.len() == g.disk_size,
        spec_all_in_range(
            g.partitions,
            spec_gpt_first_usable(g) as u64,
            spec_gpt_last_usable(g) as u64,
        ),
        // g2 is the table the written image reads back
        g2.guid == g.guid,
        g2.partitions == g.partitions,
        g2.block_size == g.block_size,
        g2.disk_size == g.disk_size,
        g2.capacity == g.capacity,
        g2.minimal_align == spec_read_minimal(
            spec_write_image(orig, g),
            g.block_size,
            g.capacity,
        ),
    ensures
        spec_write_image(spec_write_image(orig, g), g2) == spec_write_image(orig, g),
{
    lemma_gpt_geometry_bounds(g);
    lemma_write_layout(g);
    lemma_disk_roundtrip(orig, g);
    let ab = spec_gpt_array_blocks(g);
    assert(spec_gpt_array_blocks(g2) == ab);
    // the detected alignment yields the same first usable LBA
    if g2.minimal_align {
        assert(spec_gpt_first_usable(g) == ab + 2);
    } else {
        assert(spec_gpt_first_usable(g) != ab + 2);
        assert(!g.minimal_align);
    }
    assert(spec_gpt_first_usable(g2) == spec_gpt_first_usable(g));
    let img = spec_write_image(orig, g);
    lemma_write_image_congruence(img, g2, g);
    lemma_write_image_layout(orig, g);
    lemma_write_image_layout(img, g);
    let bs = g.block_size as int;
    let last = spec_gpt_last_lba(g);
    let lu = spec_gpt_last_usable(g);
    let l = 128 * g.capacity as int;
    let img2 = spec_write_image(img, g);
    assert forall|j: int| 0 <= j < img2.len() implies img2[j] == img[j] by {
        if 0 <= j < 512 {
            assert(img2.subrange(0, 512) == img.subrange(0, 512));
            assert(img2[j] == img2.subrange(0, 512)[j]);
        } else if bs <= j < bs + 92 {
            assert(img2.subrange(bs, bs + 92) == img.subrange(bs, bs + 92));
            assert(img2[j] == img2.subrange(bs, bs + 92)[j - bs]);
        } else if 2 * bs <= j < 2 * bs + l {
            assert(img2.subrange(2 * bs, 2 * bs + l) == img.subrange(2 * bs, 2 * bs + l));
            assert(img2[j] == img2.subrange(2 * bs, 2 * bs + l)[j - 2 * bs]);
        } else if (lu + 1) * bs <= j < (lu + 1) * bs + l {
            assert(img2.subrange((lu + 1) * bs, (lu + 1) * bs + l) == img.subrange(
                (lu + 1) * bs,
                (lu + 1) * bs + l,
            ));
            assert(img2[j] == img2.subrange((lu + 1) * bs, (lu + 1) * bs + l)[j - (lu + 1)
                * bs]);
        } else if last * bs <= j < last * bs + 92 {
            assert(img2.subrange(last * bs, last * bs + 92) == img.subrange(
                last * bs,
                last * bs + 92,
            ));
            assert(img2[j] == img2.subrange(last * bs, last * bs + 92)[j - last * bs]);
        }
    }
    assert(img2 =~= img);
}

} // verus!
