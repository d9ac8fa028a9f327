//! Partition entry, builder, name, and type-registry tests.

use parts::guid::Guid;
use parts::partition::{Partition, PartitionBuilder, PartitionType};
use parts::Error;

const BLOCK_SIZE: u64 = 512;
const CF_PART_GUID: &str = "97954376-2BB6-534B-A015-DF434A94ABA2";

fn sample_partition() -> Partition {
    let part_guid = Guid::from_rfc4122_string(CF_PART_GUID).unwrap();
    PartitionBuilder::new(part_guid)
        .start(1024 * 1024)
        .size(8 * 1024 * 1024)
        .partition_type(PartitionType::LinuxFilesystemData)
        .finish(BLOCK_SIZE)
}

#[test]
fn builder_computes_lbas() {
    let p = sample_partition();
    assert_eq!(p.partition_type(), PartitionType::LinuxFilesystemData);
    assert_eq!(p.start_lba(), 2048);
    assert_eq!(p.end_lba(), 18431);
    assert_eq!(p.attributes(), 0);
    let part_guid = Guid::from_rfc4122_string(CF_PART_GUID).unwrap();
    assert!(p.uuid().same_as(&part_guid));
    let linux = PartitionType::LinuxFilesystemData.to_guid();
    assert!(p.type_uuid().same_as(&linux));
}

/// A partition entry round-trips through its 128 bytes.
#[test]
fn entry_roundtrip() {
    let p = sample_partition();
    let bytes = p.to_bytes();
    assert_eq!(bytes.len(), 128);
    let back = Partition::from_bytes(&bytes);
    assert_eq!(back, p);
    let again = back.to_bytes();
    assert_eq!(again, bytes);
}

/// The first 32 entry bytes are the two mixed-endian GUIDs.
#[test]
fn entry_layout() {
    let p = sample_partition();
    let bytes = p.to_bytes();
    let mut type_wire: Vec<u8> = Vec::new();
    PartitionType::LinuxFilesystemData.to_guid().push_gpt_bytes(&mut type_wire);
    assert_eq!(&bytes[0..16], &type_wire[..]);
    let mut guid_wire: Vec<u8> = Vec::new();
    Guid::from_rfc4122_string(CF_PART_GUID).unwrap().push_gpt_bytes(&mut guid_wire);
    assert_eq!(&bytes[16..32], &guid_wire[..]);
    // start LBA 2048 little-endian
    assert_eq!(&bytes[32..40], &[0, 8, 0, 0, 0, 0, 0, 0]);
}

#[test]
fn names_roundtrip() {
    let part_guid = Guid::from_rfc4122_string(CF_PART_GUID).unwrap();
    let builder = PartitionBuilder::new(part_guid)
        .start(1024 * 1024)
        .size(1024 * 1024)
        .partition_type(PartitionType::EfiSystem)
        .name("boot")
        .unwrap();
    let p = builder.finish(BLOCK_SIZE);
    assert_eq!(p.name_units(), &vec![98u16, 111, 111, 116]);
    assert_eq!(p.name(), "boot");
    let back = Partition::from_bytes(&p.to_bytes());
    assert_eq!(back.name(), "boot");
}

#[test]
fn overlong_name_rejected() {
    let part_guid = Guid::from_rfc4122_string(CF_PART_GUID).unwrap();
    let long = "a very long partition name that cannot fit";
    assert_eq!(long.len() > 36, true);
    let r = PartitionBuilder::new(part_guid).name(long);
    assert!(matches!(r, Err(Error::NameTooLong)));
    let exact = "abcdefghijklmnopqrstuvwxyz0123456789";
    assert!(PartitionBuilder::new(part_guid).name(exact).is_ok());
}

/// The sentinel entry is unused and all zero on disk.
#[test]
fn unused_sentinel() {
    let zero = Partition::new();
    let bytes = zero.to_bytes();
    assert_eq!(bytes, vec![0u8; 128]);
    assert!(!Partition::from_bytes(&bytes).is_used());
}

/// Known type GUIDs map to their symbolic types and back; unknown ones
/// pass through unchanged.
#[test]
fn type_registry() {
    let known = [
        PartitionType::Unused,
        PartitionType::BiosBoot,
        PartitionType::EfiSystem,
        PartitionType::MicrosoftBasicData,
        PartitionType::LinuxFilesystemData,
        PartitionType::LinuxSwap,
        PartitionType::Zfs,
        PartitionType::AppleHfsPlus,
    ];
    for t in known {
        assert_eq!(PartitionType::from_guid(t.to_guid()), t);
    }
    let efi = PartitionType::EfiSystem.to_guid();
    assert_eq!(
        efi.to_rfc4122_string(),
        "C12A7328-F81F-11D2-BA4B-00A0C93EC93B"
    );
    let stranger = Guid::from_rfc4122_string(CF_PART_GUID).unwrap();
    match PartitionType::from_guid(stranger) {
        PartitionType::Unknown(g) => assert!(g.same_as(&stranger)),
        other => panic!("expected Unknown, got {:?}", other),
    }
}
