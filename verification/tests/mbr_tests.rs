//! Protective MBR tests over images equivalent to the cfdisk- and
//! parted-formatted 10 MiB test devices.

use parts::checksum::crc32;
use parts::gpt::Gpt;
use parts::guid::Guid;
use parts::header::{Align, Header, HeaderKind};
use parts::mbr::{ProtectiveMbr, MBR_SIZE};
use parts::partition::{encode_array, PartitionBuilder, PartitionType};
use parts::Error;

const TEN_MIB: u64 = 10 * 1024 * 1024;
const BLOCK_SIZE: u64 = 512;
const CF_DISK_GUID: &str = "A17875FB-1D86-EE4D-8DFE-E3E8ABBCD364";
const CF_PART_GUID: &str = "97954376-2BB6-534B-A015-DF434A94ABA2";
const PARTED_DISK_GUID: &str = "062946B9-3113-4CC0-98DD-94649773E536";
const PARTED_PART_GUID: &str = "F3099835-0F4A-4D49-B012-7078CF1B4045";

fn cfdisk_image() -> Vec<u8> {
    let disk = Guid::from_rfc4122_string(CF_DISK_GUID).unwrap();
    let part_guid = Guid::from_rfc4122_string(CF_PART_GUID).unwrap();
    let mut gpt = Gpt::with_uuid(BLOCK_SIZE, TEN_MIB, disk).unwrap();
    let part = PartitionBuilder::new(part_guid)
        .start(1024 * 1024)
        .size(8 * 1024 * 1024)
        .partition_type(PartitionType::LinuxFilesystemData)
        .finish(BLOCK_SIZE);
    gpt.add_partition(part).unwrap();
    let mut img = vec![0u8; TEN_MIB as usize];
    gpt.to_bytes(&mut img).unwrap();
    img
}

fn parted_image() -> Vec<u8> {
    let disk = Guid::from_rfc4122_string(PARTED_DISK_GUID).unwrap();
    let part_guid = Guid::from_rfc4122_string(PARTED_PART_GUID).unwrap();
    let part = PartitionBuilder::new(part_guid)
        .start(1024 * 1024)
        .size(8 * 1024 * 1024)
        .partition_type(PartitionType::LinuxFilesystemData)
        .finish(BLOCK_SIZE);
    let mut img = vec![0u8; TEN_MIB as usize];
    let last: u64 = TEN_MIB / BLOCK_SIZE - 1;
    let mbr = ProtectiveMbr::new(last);
    mbr.write(&mut img);
    // parted fills the CHS markers of the protective record differently
    img[447..450].copy_from_slice(&[0, 1, 0]);
    img[451..454].copy_from_slice(&[254, 255, 255]);
    let array = encode_array(&vec![part], 128);
    let crc = crc32(&array);
    let backup = Header::new(
        HeaderKind::Backup,
        Align::Minimal,
        crc,
        128,
        disk,
        128,
        TEN_MIB,
        BLOCK_SIZE,
    );
    let primary = Header::new(
        HeaderKind::Primary,
        Align::Minimal,
        crc,
        128,
        disk,
        128,
        TEN_MIB,
        BLOCK_SIZE,
    );
    let pb = primary.write();
    let bb = backup.write();
    img[512..604].copy_from_slice(&pb);
    img[1024..1024 + array.len()].copy_from_slice(&array);
    let bh_off = (last * BLOCK_SIZE) as usize;
    img[bh_off..bh_off + 92].copy_from_slice(&bb);
    let ba_off = (backup.array_start * BLOCK_SIZE) as usize;
    img[ba_off..ba_off + array.len()].copy_from_slice(&array);
    img
}

/// Basic reading should work and validate correctly.
#[test]
fn mbr_read_test() {
    for img in [cfdisk_image(), parted_image()] {
        let _mbr = ProtectiveMbr::read(&img[..MBR_SIZE]).unwrap();
    }
}

/// Create a protective MBR that matches existing ones.
#[test]
fn new() {
    for img in [cfdisk_image(), parted_image()] {
        let last_lba = (img.len() / BLOCK_SIZE as usize) - 1;
        let new = ProtectiveMbr::new(last_lba as u64);
        let source = ProtectiveMbr::read(&img[..MBR_SIZE]).unwrap();
        // GNU Parted fills the CHS markers its own way; skip those.
        if img[447..450] == [0, 1, 0] && img[451..454] == [254, 255, 255] {
            continue;
        }
        assert_eq!(new, source);
    }
}

/// A correct Protective MBR can be read and written out without changes.
#[test]
fn mbr_roundtrip() {
    for img in [cfdisk_image(), parted_image()] {
        let source_bytes = &img[..MBR_SIZE];
        let source = ProtectiveMbr::read(source_bytes).unwrap();
        let mut out = vec![0u8; MBR_SIZE];
        source.write(&mut out);
        assert_eq!(
            &out[..],
            source_bytes,
            "Written MBR did not match read MBR"
        );
        let reread = ProtectiveMbr::read(&out).unwrap();
        assert_eq!(
            reread, source,
            "MBR was not read the same as it was written?"
        );
    }
}

/// Each violated constraint makes the MBR invalid.
#[test]
fn mbr_rejects_corruption() {
    let img = cfdisk_image();
    let cases: [(usize, u8); 5] = [
        (440, 1),   // unique signature must be zero
        (446, 1),   // bootable flag must be zero
        (450, 0xEF), // OS type must be 0xEE
        (470, 7),   // records 1..3 must be zero
        (510, 0),   // 55 AA signature
    ];
    for (off, val) in cases {
        let mut bad = img[..MBR_SIZE].to_vec();
        bad[off] = val;
        assert_eq!(ProtectiveMbr::read(&bad), Err(Error::InvalidMbr));
    }
}
