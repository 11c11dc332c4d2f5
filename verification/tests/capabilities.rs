use pathforge::capabilities::{build_capabilities, Capability};
use pathforge::message::open::OptionalParam;

#[test]
fn test_route_refresh_roundtrip() {
    let cap = Capability::RouteRefresh;
    let bytes = cap.to_bytes();
    assert_eq!(bytes, vec![2, 0]);
}

#[test]
fn test_four_octet_asn_roundtrip() {
    let cap = Capability::FourOctetAsn { asn: 131072 };
    let bytes = cap.to_bytes();
    assert_eq!(bytes, vec![65, 4, 0, 2, 0, 0]);
    let parsed = Capability::parse_one(65, &bytes[2..]);
    assert_eq!(parsed, Capability::FourOctetAsn { asn: 131072 });
}

#[test]
fn test_multiprotocol_ipv6() {
    let cap = Capability::MultiProtocol { afi: 2, safi: 1 };
    let bytes = cap.to_bytes();
    assert_eq!(bytes[0], 1);
    let parsed = Capability::parse_one(1, &bytes[2..]);
    assert_eq!(parsed, Capability::MultiProtocol { afi: 2, safi: 1 });
}

#[test]
fn test_graceful_restart() {
    let cap = Capability::GracefulRestart { restart_time: 120, flags: 0x8 };
    let bytes = cap.to_bytes();
    let parsed = Capability::parse_one(64, &bytes[2..]);
    assert!(matches!(parsed, Capability::GracefulRestart { restart_time: 120, .. }));
}

#[test]
fn test_build_capabilities_block() {
    let caps = vec![Capability::RouteRefresh, Capability::FourOctetAsn { asn: 65001 }];
    let block = build_capabilities(&caps);
    assert!(block.len() > 2);
    let parsed = Capability::parse_optional_params(&block[1..]);
    assert!(parsed.contains(&Capability::RouteRefresh));
    assert!(parsed.contains(&Capability::FourOctetAsn { asn: 65001 }));
}

#[test]
fn test_unknown_capability() {
    let parsed = Capability::parse_one(99, &[0xAA, 0xBB]);
    assert!(matches!(parsed, Capability::Unknown { code: 99, .. }));
}

#[test]
fn test_display() {
    assert_eq!(Capability::RouteRefresh.to_string(), "RouteRefresh");
    assert_eq!(Capability::FourOctetAsn { asn: 65000 }.to_string(), "4-byte-ASN(65000)");
}

#[test]
fn graceful_restart_word_carries_flags_and_time() {
    let cap = Capability::GracefulRestart { restart_time: 120, flags: 0x8 };
    assert_eq!(cap.to_bytes(), vec![64, 2, 0x80, 120]);
    assert_eq!(
        Capability::parse_one(64, &[0x80, 120]),
        Capability::GracefulRestart { restart_time: 120, flags: 0x8 }
    );
}

#[test]
fn empty_capability_block_is_a_zero_length() {
    assert_eq!(build_capabilities(&[]), vec![0]);
}

#[test]
fn capabilities_from_open_parameters() {
    let params = vec![
        OptionalParam { param_type: 2, value: vec![2, 0, 65, 4, 0, 0, 0xFD, 0xE8] },
        OptionalParam { param_type: 1, value: vec![9, 9] },
    ];
    let caps = Capability::parse_from_open_params(&params);
    assert_eq!(caps, vec![Capability::RouteRefresh, Capability::FourOctetAsn { asn: 65000 }]);
}

#[test]
fn short_known_capability_data_is_kept_as_unknown() {
    let parsed = Capability::parse_one(65, &[0, 1]);
    assert_eq!(parsed, Capability::Unknown { code: 65, data: vec![0, 1] });
}

#[test]
fn other_parameters_and_overrunning_capabilities_give_nothing() {
    assert!(Capability::parse_optional_params(&[1, 2, 0xAA, 0xBB]).is_empty());
    // A capability announcing 10 bytes with only 2 left is dropped.
    assert!(Capability::parse_optional_params(&[2, 4, 1, 10, 0, 1]).is_empty());
    // A skipped parameter, then a route-refresh capability.
    let caps = Capability::parse_optional_params(&[1, 1, 0xAA, 2, 2, 2, 0]);
    assert_eq!(caps.len(), 1);
    assert!(matches!(caps[0], Capability::RouteRefresh));
}

#[test]
fn parameters_without_a_capability_parameter_give_nothing() {
    assert!(Capability::parse_optional_params(&[1, 2, 0xAA, 0xBB, 3, 1, 7, 9]).is_empty());
    assert!(Capability::parse_optional_params(&[]).is_empty());
    assert!(Capability::parse_optional_params(&[5]).is_empty());
}
