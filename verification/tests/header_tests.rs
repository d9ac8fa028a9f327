//! GPT header tests over images equivalent to the cfdisk- and
//! parted-formatted 10 MiB test devices.

use parts::checksum::crc32;
use parts::gpt::Gpt;
use parts::guid::Guid;
use parts::header::{Align, Header, HeaderKind};
use parts::mbr::{ProtectiveMbr, MBR_SIZE};
use parts::partition::{encode_array, PartitionBuilder, PartitionType};
use parts::Error;

const TEN_MIB: u64 = 10 * 1024 * 1024;
const BLOCK_SIZE: u64 = 512;
const CF_DISK_GUID: &str = "A17875FB-1D86-EE4D-8DFE-E3E8ABBCD364";
const CF_PART_GUID: &str = "97954376-2BB6-534B-A015-DF434A94ABA2";
const PARTED_DISK_GUID: &str = "062946B9-3113-4CC0-98DD-94649773E536";
const PARTED_PART_GUID: &str = "F3099835-0F4A-4D49-B012-7078CF1B4045";

fn cfdisk_image() -> Vec<u8> {
    let disk = Guid::from_rfc4122_string(CF_DISK_GUID).unwrap();
    let part_guid = Guid::from_rfc4122_string(CF_PART_GUID).unwrap();
    let mut gpt = Gpt::with_uuid(BLOCK_SIZE, TEN_MIB, disk).unwrap();
    let part = PartitionBuilder::new(part_guid)
        .start(1024 * 1024)
        .size(8 * 1024 * 1024)
        .partition_type(PartitionType::LinuxFilesystemData)
        .finish(BLOCK_SIZE);
    gpt.add_partition(part).unwrap();
    let mut img = vec![0u8; TEN_MIB as usize];
    gpt.to_bytes(&mut img).unwrap();
    img
}

fn parted_image() -> Vec<u8> {
    let disk = Guid::from_rfc4122_string(PARTED_DISK_GUID).unwrap();
    let part_guid = Guid::from_rfc4122_string(PARTED_PART_GUID).unwrap();
    let part = PartitionBuilder::new(part_guid)
        .start(1024 * 1024)
        .size(8 * 1024 * 1024)
        .partition_type(PartitionType::LinuxFilesystemData)
        .finish(BLOCK_SIZE);
    let mut img = vec![0u8; TEN_MIB as usize];
    let last: u64 = TEN_MIB / BLOCK_SIZE - 1;
    let mbr = ProtectiveMbr::new(last);
    mbr.write(&mut img);
    img[447..450].copy_from_slice(&[0, 1, 0]);
    img[451..454].copy_from_slice(&[254, 255, 255]);
    let array = encode_array(&vec![part], 128);
    let crc = crc32(&array);
    let backup = Header::new(
        HeaderKind::Backup,
        Align::Minimal,
        crc,
        128,
        disk,
        128,
        TEN_MIB,
        BLOCK_SIZE,
    );
    let primary = Header::new(
        HeaderKind::Primary,
        Align::Minimal,
        crc,
        128,
        disk,
        128,
        TEN_MIB,
        BLOCK_SIZE,
    );
    let pb = primary.write();
    let bb = backup.write();
    img[512..604].copy_from_slice(&pb);
    img[1024..1024 + array.len()].copy_from_slice(&array);
    let bh_off = (last * BLOCK_SIZE) as usize;
    img[bh_off..bh_off + 92].copy_from_slice(&bb);
    let ba_off = (backup.array_start * BLOCK_SIZE) as usize;
    img[ba_off..ba_off + array.len()].copy_from_slice(&array);
    img
}

/// Basic reading should work and validate correctly.
#[test]
fn header_read_test() {
    for (img, disk) in [
        (cfdisk_image(), CF_DISK_GUID),
        (parted_image(), PARTED_DISK_GUID),
    ] {
        let block = &img[MBR_SIZE..][..BLOCK_SIZE as usize];
        let header = Header::read(block, BLOCK_SIZE, 1).unwrap();
        let expected = Guid::from_rfc4122_string(disk).unwrap();
        assert!(
            header.uuid().same_as(&expected),
            "UUID didn't match test data"
        );
    }
}

/// Headers round-trip through their serialization.
#[test]
fn header_roundtrip() {
    for img in [cfdisk_image(), parted_image()] {
        let block = &img[MBR_SIZE..][..BLOCK_SIZE as usize];
        let source = Header::read(block, BLOCK_SIZE, 1).unwrap();
        // Parted and cfdisk use different alignments.
        let align = if source.first_usable == 34 {
            Align::Minimal
        } else {
            Align::Optimal
        };
        let new = Header::new(
            HeaderKind::Primary,
            align,
            source.partitions_crc32,
            source.partitions,
            source.disk_guid,
            source.entry_size,
            img.len() as u64,
            BLOCK_SIZE,
        );
        assert_eq!(new, source);
        let bytes = new.write();
        assert_eq!(
            &bytes[..],
            &block[..92],
            "Written bytes did not match read bytes"
        );
        let mut padded = vec![0u8; BLOCK_SIZE as usize];
        padded[..92].copy_from_slice(&bytes);
        let reread = Header::read(&padded, BLOCK_SIZE, 1).unwrap();
        assert_eq!(reread, source);
    }
}

/// Each violated header constraint reports its own error.
#[test]
fn header_rejects_corruption() {
    let img = cfdisk_image();
    let block = &img[MBR_SIZE..][..BLOCK_SIZE as usize];

    let mut bad_sig = block.to_vec();
    bad_sig[0] = 0;
    assert_eq!(
        Header::read(&bad_sig, BLOCK_SIZE, 1),
        Err(Error::InvalidSignature)
    );

    let mut bad_rev = block.to_vec();
    bad_rev[8] = 0x55;
    assert_eq!(
        Header::read(&bad_rev, BLOCK_SIZE, 1),
        Err(Error::InvalidRevision)
    );

    let mut bad_size = block.to_vec();
    bad_size[12] = 12;
    assert_eq!(
        Header::read(&bad_size, BLOCK_SIZE, 1),
        Err(Error::InvalidHeaderSize)
    );

    let mut bad_esize = block.to_vec();
    bad_esize[84] = 100;
    assert_eq!(
        Header::read(&bad_esize, BLOCK_SIZE, 1),
        Err(Error::InvalidHeaderSize)
    );

    // flipping any other covered byte breaks the CRC
    let mut bad_crc = block.to_vec();
    bad_crc[40] ^= 0xFF;
    assert_eq!(
        Header::read(&bad_crc, BLOCK_SIZE, 1),
        Err(Error::BadHeaderCrc)
    );

    assert_eq!(Header::read(block, BLOCK_SIZE, 7), Err(Error::WrongLocation));
}

/// The published CRC-32/ISO-HDLC check value.
#[test]
fn crc32_check_value() {
    assert_eq!(crc32(b"123456789"), 0xCBF43926);
    assert_eq!(crc32(b""), 0);
}
