//! Whole-table tests: reading, writing, round trips, mutation, and the
//! error taxonomy, over an image equivalent to the cfdisk-formatted
//! 10 MiB test device.

use parts::checksum::crc32;
use parts::gpt::Gpt;
use parts::guid::Guid;
use parts::header::{Align, Header, HeaderKind};
use parts::mbr::ProtectiveMbr;
use parts::partition::encode_array;
use parts::io::SliceDisk;
use parts::partition::{Partition, PartitionBuilder, PartitionType};
use parts::Error;

const TEN_MIB: u64 = 10 * 1024 * 1024;
const BLOCK_SIZE: u64 = 512;
const CF_DISK_GUID: &str = "A17875FB-1D86-EE4D-8DFE-E3E8ABBCD364";
const CF_PART_GUID: &str = "97954376-2BB6-534B-A015-DF434A94ABA2";

fn cf_partition() -> Partition {
    let part_guid = Guid::from_rfc4122_string(CF_PART_GUID).unwrap();
    PartitionBuilder::new(part_guid)
        .start(1024 * 1024)
        .size(8 * 1024 * 1024)
        .partition_type(PartitionType::LinuxFilesystemData)
        .finish(BLOCK_SIZE)
}

fn cfdisk_image() -> Vec<u8> {
    let disk = Guid::from_rfc4122_string(CF_DISK_GUID).unwrap();
    let mut gpt = Gpt::with_uuid(BLOCK_SIZE, TEN_MIB, disk).unwrap();
    gpt.add_partition(cf_partition()).unwrap();
    let mut img = vec![0u8; TEN_MIB as usize];
    gpt.to_bytes(&mut img).unwrap();
    img
}

fn expected_gpt(gpt: &Gpt) {
    assert_eq!(gpt.partitions().len(), 1);
    let part_guid = Guid::from_rfc4122_string(CF_PART_GUID).unwrap();
    let disk_guid = Guid::from_rfc4122_string(CF_DISK_GUID).unwrap();
    assert!(gpt.partitions()[0].uuid().same_as(&part_guid));
    assert!(gpt.uuid().same_as(&disk_guid));
}

/// Test that we can read a GPT, at several configured capacities.
#[test]
fn read_gpt() {
    let raw = cfdisk_image();
    let gpt = Gpt::from_bytes_with_capacity(&raw, BLOCK_SIZE, 128).unwrap();
    Gpt::from_bytes_with_capacity(&raw, BLOCK_SIZE, 0).unwrap();
    Gpt::from_bytes_with_capacity(&raw, BLOCK_SIZE, 64).unwrap();
    Gpt::from_bytes_with_capacity(&raw, BLOCK_SIZE, 256).unwrap();
    Gpt::from_bytes(&raw, BLOCK_SIZE).unwrap();
    expected_gpt(&gpt);
}

/// Reading then writing a valid image gives back the same table — and
/// for this canonical image, the same bytes.
#[test]
fn gpt_roundtrip() {
    let raw = cfdisk_image();
    let gpt = Gpt::from_bytes(&raw, BLOCK_SIZE).unwrap();
    let mut dest = vec![0u8; TEN_MIB as usize];
    gpt.to_bytes(&mut dest).unwrap();
    let new_gpt = Gpt::from_bytes(&dest, BLOCK_SIZE).unwrap();
    assert_eq!(new_gpt, gpt);
    assert_eq!(dest, raw);
}

/// A zeroed 1024-byte buffer fails with `InvalidMbr`.
#[test]
fn missing_mbr_test() {
    let raw = vec![0u8; 1024];
    assert_eq!(Gpt::from_bytes(&raw, BLOCK_SIZE), Err(Error::InvalidMbr));
}

/// Zeroing the primary header block fails with `InvalidSignature`.
#[test]
fn missing_gpt_test() {
    let mut raw = cfdisk_image();
    raw[512..1024].fill(0);
    assert_eq!(Gpt::from_bytes(&raw, BLOCK_SIZE), Err(Error::InvalidSignature));
}

/// The reader-callback path sees the same table as the byte path.
#[test]
fn std_gpt_test() {
    let raw = cfdisk_image();
    let mut disk = SliceDisk::new(raw);
    let gpt = Gpt::from_reader_fn(&mut disk, BLOCK_SIZE, TEN_MIB).unwrap();
    expected_gpt(&gpt);
}

/// A table read with capacity 0 writes a valid GPT with no partitions.
#[test]
fn destroy_unsupported_partitions() {
    let mut raw = cfdisk_image();
    let zero_gpt = Gpt::from_bytes_with_capacity(&raw, BLOCK_SIZE, 0).unwrap();
    assert_eq!(zero_gpt.partitions().len(), 0);
    zero_gpt.to_bytes(&mut raw).unwrap();
    let gpt = Gpt::from_bytes_with_capacity(&raw, BLOCK_SIZE, 128).unwrap();
    assert_eq!(gpt.partitions().len(), 0);
}

/// add_partition must not panic on a duplicate.
#[test]
fn add_partition_regress() {
    let raw = cfdisk_image();
    let mut gpt = Gpt::from_bytes(&raw, BLOCK_SIZE).unwrap();
    let part = gpt.partitions()[0].clone();
    let _ = gpt.add_partition(part);
}

/// Adding an overlapping partition fails with `PartitionOverlap`.
#[test]
fn invalid_partitions() {
    let raw = cfdisk_image();
    let mut gpt = Gpt::from_bytes(&raw, BLOCK_SIZE).unwrap();
    let part = gpt.partitions()[0].clone();
    assert_eq!(gpt.add_partition(part), Err(Error::PartitionOverlap));
}

/// A partition outside the usable range fails with `OutOfRange`.
#[test]
fn invalid_range_partitions() {
    let raw = cfdisk_image();
    let mut gpt = Gpt::from_bytes(&raw, BLOCK_SIZE).unwrap();
    let part = PartitionBuilder::new(Guid::new_v4())
        .start(512)
        .size(1024 * 1024)
        .partition_type(PartitionType::LinuxFilesystemData)
        .finish(BLOCK_SIZE);
    assert_eq!(gpt.add_partition(part), Err(Error::OutOfRange));
    let too_far = PartitionBuilder::new(Guid::new_v4())
        .start(9 * 1024 * 1024)
        .size(2 * 1024 * 1024)
        .partition_type(PartitionType::LinuxFilesystemData)
        .finish(BLOCK_SIZE);
    assert_eq!(gpt.add_partition(too_far), Err(Error::OutOfRange));
}

/// A full table rejects further partitions with `CapacityExceeded`.
#[test]
fn capacity_exceeded() {
    let raw = cfdisk_image();
    let mut gpt = Gpt::from_bytes_with_capacity(&raw, BLOCK_SIZE, 0).unwrap();
    assert_eq!(gpt.partitions().len(), 0);
    assert_eq!(gpt.add_partition(cf_partition()), Err(Error::CapacityExceeded));
}

/// Create a GPT label byte-identical to the test image.
#[test]
fn create_test_parts() {
    let test_data = cfdisk_image();
    let test_gpt = Gpt::from_bytes(&test_data, BLOCK_SIZE).unwrap();
    let mut gpt = Gpt::new(BLOCK_SIZE, TEN_MIB).unwrap();
    gpt.set_uuid(Guid::from_rfc4122_string(CF_DISK_GUID).unwrap());
    gpt.add_partition(cf_partition()).unwrap();
    assert_eq!(gpt, test_gpt);
    let mut out = vec![0u8; TEN_MIB as usize];
    gpt.to_bytes(&mut out).unwrap();
    assert_eq!(out, test_data);
}

/// A newly created Gpt has no partitions.
#[test]
fn empty_partitions() {
    let mut data = vec![0u8; TEN_MIB as usize];
    let gpt = Gpt::new(BLOCK_SIZE, TEN_MIB).unwrap();
    gpt.to_bytes(&mut data).unwrap();
    let gpt = Gpt::from_bytes(&data, BLOCK_SIZE).unwrap();
    assert_eq!(gpt.partitions().len(), 0);
}

/// The writer- and reader-callback paths round-trip an empty table.
#[test]
fn empty_partitions_std() {
    let data = vec![0u8; TEN_MIB as usize];
    let mut disk = SliceDisk::new(data);
    let gpt = Gpt::new(BLOCK_SIZE, TEN_MIB).unwrap();
    gpt.to_writer_fn(&mut disk).unwrap();
    let gpt = Gpt::from_reader_fn(&mut disk, BLOCK_SIZE, TEN_MIB).unwrap();
    assert_eq!(gpt.partitions().len(), 0);
}

/// The reader-callback path honors the configured capacity too.
#[test]
fn reader_with_capacity() {
    let raw = cfdisk_image();
    let mut disk = SliceDisk::new(raw);
    let gpt = Gpt::from_reader_fn_with_capacity(&mut disk, BLOCK_SIZE, TEN_MIB, 0).unwrap();
    assert_eq!(gpt.partitions().len(), 0);
    assert_eq!(gpt.capacity(), 0);
}

/// Geometry the library refuses: bad block sizes and tiny disks.
#[test]
fn geometry_invalid() {
    assert_eq!(Gpt::new(513, TEN_MIB), Err(Error::GeometryInvalid));
    assert_eq!(Gpt::new(0, TEN_MIB), Err(Error::GeometryInvalid));
    assert_eq!(Gpt::new(BLOCK_SIZE, 600), Err(Error::GeometryInvalid));
    let raw = cfdisk_image();
    assert_eq!(Gpt::from_bytes(&raw, 513), Err(Error::GeometryInvalid));
}

/// A corrupted partition array fails with `BadArrayCrc`.
#[test]
fn bad_array_crc() {
    let mut raw = cfdisk_image();
    raw[1024] ^= 0xFF;
    assert_eq!(Gpt::from_bytes(&raw, BLOCK_SIZE), Err(Error::BadArrayCrc));
}

/// Primary and backup headers that disagree on the disk GUID fail with
/// `InconsistentHeaders`.
#[test]
fn inconsistent_headers() {
    let mut raw = cfdisk_image();
    let primary = Header::read(&raw[512..1024], BLOCK_SIZE, 1).unwrap();
    let other = Header::new(
        HeaderKind::Backup,
        Align::Optimal,
        primary.partitions_crc32,
        primary.partitions,
        Guid::from_rfc4122_string(CF_PART_GUID).unwrap(),
        primary.entry_size,
        TEN_MIB,
        BLOCK_SIZE,
    );
    let bytes = other.write();
    let off = ((TEN_MIB / BLOCK_SIZE - 1) * BLOCK_SIZE) as usize;
    raw[off..off + 92].copy_from_slice(&bytes);
    assert_eq!(
        Gpt::from_bytes(&raw, BLOCK_SIZE),
        Err(Error::InconsistentHeaders)
    );
}

/// A reader that cannot serve the requested range fails with `Io`.
#[test]
fn io_error() {
    let raw = cfdisk_image();
    let mut disk = SliceDisk::new(raw);
    // claim a larger device: the backup header read runs off the image
    assert_eq!(
        Gpt::from_reader_fn(&mut disk, BLOCK_SIZE, 2 * TEN_MIB),
        Err(Error::Io)
    );
}

/// Accessors report the geometry and capacity.
#[test]
fn geometry_accessors() {
    let raw = cfdisk_image();
    let gpt = Gpt::from_bytes(&raw, BLOCK_SIZE).unwrap();
    assert_eq!(gpt.block_size(), BLOCK_SIZE);
    assert_eq!(gpt.disk_size(), TEN_MIB);
    assert_eq!(gpt.capacity(), 128);
    assert_eq!(gpt.first_usable_lba(), 2048);
    assert_eq!(gpt.last_usable_lba(), 20446);
}

/// Build a 10 MiB image with the given disk GUID and array slots,
/// optimally aligned, without going through a `Gpt` value.
fn custom_image(disk: Guid, slots: Vec<Partition>) -> Vec<u8> {
    let mut img = vec![0u8; TEN_MIB as usize];
    let last: u64 = TEN_MIB / BLOCK_SIZE - 1;
    ProtectiveMbr::new(last).write(&mut img);
    let array = encode_array(&slots, 128);
    let crc = crc32(&array);
    let backup = Header::new(
        HeaderKind::Backup,
        Align::Optimal,
        crc,
        128,
        disk,
        128,
        TEN_MIB,
        BLOCK_SIZE,
    );
    let primary = Header::new(
        HeaderKind::Primary,
        Align::Optimal,
        crc,
        128,
        disk,
        128,
        TEN_MIB,
        BLOCK_SIZE,
    );
    img[512..604].copy_from_slice(&primary.write());
    img[1024..1024 + array.len()].copy_from_slice(&array);
    let bh_off = (last * BLOCK_SIZE) as usize;
    img[bh_off..bh_off + 92].copy_from_slice(&backup.write());
    let ba_off = (backup.array_start * BLOCK_SIZE) as usize;
    img[ba_off..ba_off + array.len()].copy_from_slice(&array);
    img
}

/// The table refuses a zero disk GUID, set or read.
#[test]
fn zero_disk_guid_rejected() {
    assert_eq!(
        Gpt::with_uuid(BLOCK_SIZE, TEN_MIB, Guid::zero()),
        Err(Error::InvalidGuid)
    );
    let img = custom_image(Guid::zero(), vec![cf_partition()]);
    assert_eq!(Gpt::from_bytes(&img, BLOCK_SIZE), Err(Error::InvalidGuid));
}

/// Partition GUIDs must be nonzero and unique (invariant I4), at
/// `add_partition` and on read.
#[test]
fn duplicate_partition_guid_rejected() {
    let raw = cfdisk_image();
    let mut gpt = Gpt::from_bytes(&raw, BLOCK_SIZE).unwrap();
    // same GUID as the existing partition, elsewhere in the usable range
    let twin = PartitionBuilder::new(Guid::from_rfc4122_string(CF_PART_GUID).unwrap())
        .start(9437184)
        .size(524288)
        .partition_type(PartitionType::LinuxSwap)
        .finish(BLOCK_SIZE);
    assert_eq!(gpt.add_partition(twin.clone()), Err(Error::InvalidGuid));
    let zeroed = PartitionBuilder::new(Guid::zero())
        .start(9437184)
        .size(524288)
        .partition_type(PartitionType::LinuxSwap)
        .finish(BLOCK_SIZE);
    assert_eq!(gpt.add_partition(zeroed), Err(Error::InvalidGuid));
    // the read path rejects the same violations
    let disk = Guid::from_rfc4122_string(CF_DISK_GUID).unwrap();
    let img = custom_image(disk, vec![cf_partition(), twin]);
    assert_eq!(Gpt::from_bytes(&img, BLOCK_SIZE), Err(Error::InvalidGuid));
}

/// Reading retains the used entries among the first `capacity` array
/// slots; a used entry in a later slot is dropped, as the full array is
/// still CRC-validated.
#[test]
fn capacity_counts_slots() {
    let disk = Guid::from_rfc4122_string(CF_DISK_GUID).unwrap();
    // slot 0 unused, slot 1 used
    let img = custom_image(disk, vec![Partition::new(), cf_partition()]);
    let full = Gpt::from_bytes_with_capacity(&img, BLOCK_SIZE, 128).unwrap();
    assert_eq!(full.partitions().len(), 1);
    let one = Gpt::from_bytes_with_capacity(&img, BLOCK_SIZE, 1).unwrap();
    assert_eq!(one.partitions().len(), 0);
}

/// Attributes and names can be changed in place.
#[test]
fn mutate_partition_in_place() {
    let raw = cfdisk_image();
    let mut gpt = Gpt::from_bytes(&raw, BLOCK_SIZE).unwrap();
    gpt.set_partition_attributes(0, 4);
    assert_eq!(gpt.partitions()[0].attributes(), 4);
    gpt.rename_partition(0, "rootfs").unwrap();
    assert_eq!(gpt.partitions()[0].name(), "rootfs");
    let long = "a very long partition name that cannot fit at all";
    assert_eq!(gpt.rename_partition(0, long), Err(Error::NameTooLong));
    assert_eq!(gpt.partitions()[0].name(), "rootfs");
    // the mutated table still round-trips
    let mut img = vec![0u8; TEN_MIB as usize];
    gpt.to_bytes(&mut img).unwrap();
    let back = Gpt::from_bytes(&img, BLOCK_SIZE).unwrap();
    assert_eq!(back, gpt);
}

/// A 4096-byte-block device round-trips too.
#[test]
fn large_block_size() {
    let disk_size: u64 = 64 * 1024 * 1024;
    let mut gpt = Gpt::new(4096, disk_size).unwrap();
    let part = PartitionBuilder::new(Guid::new_v4())
        .start(16 * 1024 * 1024)
        .size(8 * 1024 * 1024)
        .partition_type(PartitionType::EfiSystem)
        .finish(4096);
    gpt.add_partition(part).unwrap();
    let mut img = vec![0u8; disk_size as usize];
    gpt.to_bytes(&mut img).unwrap();
    let back = Gpt::from_bytes(&img, 4096).unwrap();
    assert_eq!(back, gpt);
    assert_eq!(back.partitions()[0].start_lba(), 4096);
    assert_eq!(back.partitions()[0].end_lba(), 6143);
}

/// Partitions come back sorted by start LBA whatever the insertion
/// order.
#[test]
fn partitions_sorted() {
    let mut gpt = Gpt::new(BLOCK_SIZE, TEN_MIB).unwrap();
    let late = PartitionBuilder::new(Guid::new_v4())
        .start(4 * 1024 * 1024)
        .size(1024 * 1024)
        .partition_type(PartitionType::LinuxSwap)
        .finish(BLOCK_SIZE);
    let early = PartitionBuilder::new(Guid::new_v4())
        .start(1024 * 1024)
        .size(1024 * 1024)
        .partition_type(PartitionType::LinuxFilesystemData)
        .finish(BLOCK_SIZE);
    gpt.add_partition(late).unwrap();
    gpt.add_partition(early).unwrap();
    assert_eq!(gpt.partitions()[0].start_lba(), 2048);
    assert_eq!(gpt.partitions()[1].start_lba(), 8192);
    let mut img = vec![0u8; TEN_MIB as usize];
    gpt.to_bytes(&mut img).unwrap();
    let back = Gpt::from_bytes(&img, BLOCK_SIZE).unwrap();
    assert_eq!(back.partitions().len(), 2);
    assert_eq!(back, gpt);
}

/// Removing the only partition empties the table.
#[test]
fn remove_partition() {
    let raw = cfdisk_image();
    let mut gpt = Gpt::from_bytes(&raw, BLOCK_SIZE).unwrap();
    let removed = gpt.remove_partition(0);
    let part_guid = Guid::from_rfc4122_string(CF_PART_GUID).unwrap();
    assert!(removed.uuid().same_as(&part_guid));
    assert_eq!(gpt.partitions().len(), 0);
}
