use bytes::BytesMut;
use pathforge::mp::{Afi, IpAddress, MpError, MpPrefix, MpReachNlri, MpUnreachNlri, Safi};

fn ip(a: u8, b: u8, c: u8, d: u8) -> u32 {
    u32::from_be_bytes([a, b, c, d])
}

const DB8: u128 = 0x2001_0db8_0000_0000_0000_0000_0000_0000;

#[test]
fn test_mp_prefix_ipv4_roundtrip() {
    let p = MpPrefix::ipv4(ip(10, 0, 0, 0), 8);
    let mut buf = BytesMut::new();
    p.serialize(&mut buf);
    let (parsed, _) = MpPrefix::parse(&buf[..], Afi::Ipv4).unwrap();
    assert_eq!(parsed.prefix_len, 8);
    assert_eq!(parsed.address, IpAddress::V4(ip(10, 0, 0, 0)));
}

#[test]
fn test_mp_prefix_ipv6_roundtrip() {
    let p = MpPrefix::ipv6(DB8, 32);
    let mut buf = BytesMut::new();
    p.serialize(&mut buf);
    let (parsed, _) = MpPrefix::parse(&buf[..], Afi::Ipv6).unwrap();
    assert_eq!(parsed.prefix_len, 32);
    assert_eq!(parsed.address, IpAddress::V6(DB8));
}

#[test]
fn test_mp_reach_nlri_roundtrip() {
    let nh = IpAddress::V6(DB8 | 1);
    let mut reach = MpReachNlri::new(Afi::Ipv6, Safi::Unicast, nh);
    reach.nlri.push(MpPrefix::ipv6(0x2001_0db8_0001_0000_0000_0000_0000_0000, 48));
    reach.nlri.push(MpPrefix::ipv6(0xfd00_0000_0000_0000_0000_0000_0000_0000, 8));
    let serialized = reach.serialize();
    let parsed = MpReachNlri::parse(&serialized[..]).unwrap();
    assert_eq!(parsed.afi, Afi::Ipv6);
    assert_eq!(parsed.safi, Safi::Unicast);
    assert_eq!(parsed.next_hops.len(), 1);
    assert_eq!(parsed.nlri.len(), 2);
    assert_eq!(parsed.nlri[0].prefix_len, 48);
}

#[test]
fn test_mp_unreach_nlri_roundtrip() {
    let mut unreach = MpUnreachNlri::new(Afi::Ipv6, Safi::Unicast);
    unreach.withdrawn.push(MpPrefix::ipv6(DB8, 32));
    let serialized = unreach.serialize();
    let parsed = MpUnreachNlri::parse(&serialized[..]).unwrap();
    assert_eq!(parsed.afi, Afi::Ipv6);
    assert_eq!(parsed.withdrawn.len(), 1);
    assert_eq!(parsed.withdrawn[0].prefix_len, 32);
}

#[test]
fn test_mp_reach_ipv4_roundtrip() {
    let nh = IpAddress::V4(ip(10, 0, 0, 1));
    let mut reach = MpReachNlri::new(Afi::Ipv4, Safi::Unicast, nh);
    reach.nlri.push(MpPrefix::ipv4(ip(192, 168, 0, 0), 24));
    let serialized = reach.serialize();
    let parsed = MpReachNlri::parse(&serialized[..]).unwrap();
    assert_eq!(parsed.afi, Afi::Ipv4);
    assert_eq!(parsed.nlri[0].prefix_len, 24);
    assert_eq!(parsed.next_hops, vec![nh]);
}

#[test]
fn unknown_families_are_refused() {
    assert!(matches!(Afi::from_u16(3), Err(MpError::UnknownAfi(3))));
    assert!(matches!(Safi::from_u8(7), Err(MpError::UnknownSafi(7))));
    assert_eq!(Afi::Ipv6.code(), 2);
    assert_eq!(Safi::LabeledUnicast.code(), 4);
}

#[test]
fn truncated_mp_prefix_is_too_short() {
    assert!(matches!(MpPrefix::parse(&[32u8, 1, 2][..], Afi::Ipv4), Err(MpError::TooShort)));
}

#[test]
fn mp_prefix_encoded_len_counts_octets() {
    assert_eq!(MpPrefix::ipv6(DB8, 33).encoded_len(), 5);
    assert_eq!(MpPrefix::ipv4(0, 0).encoded_len(), 0);
}
