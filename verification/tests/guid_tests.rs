//! GUID codec tests: RFC 4122 text, the mixed-endian wire form, and
//! random version-4 generation.

use parts::guid::Guid;
use parts::Error;

const CF_DISK_GUID: &str = "A17875FB-1D86-EE4D-8DFE-E3E8ABBCD364";

#[test]
fn parse_rfc4122_string() {
    let g = Guid::from_rfc4122_string(CF_DISK_GUID).unwrap();
    let expected: [u8; 16] = [
        0xA1, 0x78, 0x75, 0xFB, 0x1D, 0x86, 0xEE, 0x4D, 0x8D, 0xFE, 0xE3, 0xE8, 0xAB, 0xBC,
        0xD3, 0x64,
    ];
    for (k, b) in expected.iter().enumerate() {
        assert_eq!(g.byte_at(k), *b);
    }
}

#[test]
fn parse_rfc4122_lowercase() {
    let upper = Guid::from_rfc4122_string(CF_DISK_GUID).unwrap();
    let lower = Guid::from_rfc4122_string(&CF_DISK_GUID.to_lowercase()).unwrap();
    assert!(upper.same_as(&lower));
}

#[test]
fn parse_rfc4122_rejects_garbage() {
    assert_eq!(Guid::from_rfc4122_string("nope"), Err(Error::InvalidGuid));
    assert_eq!(
        Guid::from_rfc4122_string("A17875FB-1D86-EE4D-8DFE-E3E8ABBCD36Z"),
        Err(Error::InvalidGuid)
    );
    assert_eq!(
        Guid::from_rfc4122_string("A17875FB+1D86-EE4D-8DFE-E3E8ABBCD364"),
        Err(Error::InvalidGuid)
    );
}

#[test]
fn format_rfc4122_string() {
    let g = Guid::from_rfc4122_string(CF_DISK_GUID).unwrap();
    assert_eq!(g.to_rfc4122_string(), CF_DISK_GUID);
}

/// The mixed-endian wire form reverses the three little-endian field
/// groups; computed by hand for the cfdisk disk GUID.
#[test]
fn gpt_bytes_mixed_endian() {
    let g = Guid::from_rfc4122_string(CF_DISK_GUID).unwrap();
    let mut wire: Vec<u8> = Vec::new();
    g.push_gpt_bytes(&mut wire);
    let expected: [u8; 16] = [
        0xFB, 0x75, 0x78, 0xA1, 0x86, 0x1D, 0x4D, 0xEE, 0x8D, 0xFE, 0xE3, 0xE8, 0xAB, 0xBC,
        0xD3, 0x64,
    ];
    assert_eq!(&wire[..], &expected[..]);
}

/// The mixed-endian encoding composed with itself is the identity.
#[test]
fn gpt_bytes_involution() {
    let g = Guid::from_rfc4122_string(CF_DISK_GUID).unwrap();
    let mut wire: Vec<u8> = Vec::new();
    g.push_gpt_bytes(&mut wire);
    let back = Guid::from_gpt_bytes(&wire);
    assert!(back.same_as(&g));
    let mut wire2: Vec<u8> = Vec::new();
    Guid::from_gpt_bytes(&wire).push_gpt_bytes(&mut wire2);
    assert_eq!(wire, wire2);
}

#[test]
fn zero_guid() {
    assert!(Guid::zero().is_zero());
    assert!(!Guid::from_rfc4122_string(CF_DISK_GUID).unwrap().is_zero());
}

#[test]
fn random_v4_guid() {
    let g = Guid::new_v4();
    assert_eq!(g.byte_at(6) >> 4, 4, "version nibble must be 4");
    assert_eq!(g.byte_at(8) >> 6, 2, "variant bits must be 10");
    assert!(!g.is_zero());
    let h = Guid::new_v4();
    let _ = h;
}
