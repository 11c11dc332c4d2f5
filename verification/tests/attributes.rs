use pathforge::attr::{AsPathSegment, AttrError, Community, Origin, PathAttributes};

fn ip(a: u8, b: u8, c: u8, d: u8) -> u32 {
    u32::from_be_bytes([a, b, c, d])
}

fn roundtrip(attrs: &PathAttributes) -> PathAttributes {
    let serialized = attrs.serialize();
    PathAttributes::parse(&serialized[..]).unwrap()
}

#[test]
fn test_origin_roundtrip() {
    let attrs = PathAttributes { origin: Some(Origin::Igp), ..Default::default() };
    let parsed = roundtrip(&attrs);
    assert_eq!(parsed.origin, Some(Origin::Igp));
}

#[test]
fn test_as_path_roundtrip() {
    let attrs = PathAttributes {
        as_path: vec![AsPathSegment::AsSequence(vec![65001, 65002, 65003])],
        ..Default::default()
    };
    let parsed = roundtrip(&attrs);
    assert_eq!(parsed.as_path.len(), 1);
    assert_eq!(parsed.as_path[0].as_numbers(), &[65001, 65002, 65003]);
    assert_eq!(parsed.as_path_len(), 3);
}

#[test]
fn test_next_hop_roundtrip() {
    let attrs = PathAttributes { next_hop: Some(ip(192, 0, 2, 1)), ..Default::default() };
    let parsed = roundtrip(&attrs);
    assert_eq!(parsed.next_hop, Some(ip(192, 0, 2, 1)));
}

#[test]
fn test_med_local_pref() {
    let attrs =
        PathAttributes { multi_exit_disc: Some(100), local_pref: Some(200), ..Default::default() };
    let parsed = roundtrip(&attrs);
    assert_eq!(parsed.multi_exit_disc, Some(100));
    assert_eq!(parsed.local_pref, Some(200));
}

#[test]
fn test_communities() {
    let attrs = PathAttributes {
        communities: vec![Community(0x00010002), Community(Community::NO_EXPORT)],
        ..Default::default()
    };
    let parsed = roundtrip(&attrs);
    assert_eq!(parsed.communities.len(), 2);
    assert_eq!(parsed.communities[1], Community(Community::NO_EXPORT));
    assert_eq!(parsed.communities[0].asn(), 1);
    assert_eq!(parsed.communities[0].value(), 2);
}

#[test]
fn test_full_attributes() {
    let attrs = PathAttributes {
        origin: Some(Origin::Egp),
        as_path: vec![
            AsPathSegment::AsSequence(vec![65000, 65001]),
            AsPathSegment::AsSet(vec![65002, 65003]),
        ],
        next_hop: Some(ip(10, 0, 0, 1)),
        multi_exit_disc: Some(50),
        local_pref: Some(100),
        atomic_aggregate: true,
        communities: vec![Community(Community::NO_EXPORT)],
        ..Default::default()
    };
    let parsed = roundtrip(&attrs);
    assert_eq!(parsed.origin, Some(Origin::Egp));
    assert_eq!(parsed.as_path.len(), 2);
    assert_eq!(parsed.as_path_len(), 3);
    assert!(parsed.atomic_aggregate);
    assert_eq!(parsed.communities[0], Community(Community::NO_EXPORT));
}

#[test]
fn reflector_attributes_and_unknown_ones_survive_a_roundtrip() {
    let mut attrs = PathAttributes::default();
    attrs.aggregator = Some((65010, ip(10, 9, 8, 7)));
    attrs.originator_id = Some(ip(10, 0, 0, 5));
    attrs.cluster_list = vec![ip(10, 0, 0, 1), ip(10, 0, 0, 2)];
    attrs.unknown = vec![pathforge::attr::RawAttribute { flags: 0xC0, type_code: 99, value: vec![1, 2, 3] }];
    let parsed = roundtrip(&attrs);
    assert_eq!(parsed.aggregator, Some((65010, ip(10, 9, 8, 7))));
    assert_eq!(parsed.originator_id, Some(ip(10, 0, 0, 5)));
    assert_eq!(parsed.cluster_list, vec![ip(10, 0, 0, 1), ip(10, 0, 0, 2)]);
    assert_eq!(parsed.unknown.len(), 1);
    assert_eq!(parsed.unknown[0].type_code, 99);
    assert_eq!(parsed.unknown[0].value, vec![1, 2, 3]);
}

#[test]
fn empty_attributes_serialize_to_nothing() {
    let attrs = PathAttributes::default();
    assert!(attrs.is_empty());
    assert_eq!(attrs.serialize().len(), 0);
    assert!(PathAttributes::parse(&[]).unwrap().is_empty());
}

#[test]
fn origin_code_out_of_range_is_refused() {
    assert!(matches!(Origin::from_u8(3), Err(AttrError::InvalidOrigin(3))));
    assert_eq!(Origin::from_u8(2).unwrap(), Origin::Incomplete);
    let bytes = [0x40u8, 1, 1, 7];
    assert!(matches!(PathAttributes::parse(&bytes[..]), Err(AttrError::InvalidOrigin(7))));
}

#[test]
fn as_path_segment_type_out_of_range_is_refused() {
    let bytes = [0x40u8, 2, 6, 9, 1, 0, 0, 0, 1];
    assert!(matches!(PathAttributes::parse(&bytes[..]), Err(AttrError::InvalidAsPathSegment(9))));
}

#[test]
fn attribute_running_past_the_end_is_too_short() {
    let bytes = [0x40u8, 3, 4, 10, 0];
    assert!(matches!(PathAttributes::parse(&bytes[..]), Err(AttrError::TooShort)));
}

#[test]
fn community_fields_and_text() {
    let c = Community((65001u32 << 16) | 200);
    assert_eq!(c.asn(), 65001);
    assert_eq!(c.value(), 200);
    assert_eq!(c.to_string(), "65001:200");
    assert_eq!(Community(Community::NO_EXPORT).to_string(), "no-export");
    assert_eq!(Community(Community::NO_ADVERTISE).to_string(), "no-advertise");
    assert_eq!(Community(Community::NO_EXPORT_SUBCONFED).to_string(), "no-export-subconfed");
}

#[test]
fn as_path_length_counts_sets_once() {
    let attrs = PathAttributes {
        as_path: vec![
            AsPathSegment::AsSet(vec![1, 2, 3, 4]),
            AsPathSegment::AsSequence(vec![5, 6]),
        ],
        ..Default::default()
    };
    assert_eq!(attrs.as_path_len(), 3);
    assert_eq!(attrs.as_path_len_checked(), Some(3));
}

#[test]
fn an_error_after_good_attributes_still_decides() {
    // A valid ORIGIN (IGP), then a LOCAL_PREF announcing 4 bytes with 2 left.
    let bytes = [0x40u8, 1, 1, 0, 0x40, 5, 4, 0, 0];
    assert!(matches!(PathAttributes::parse(&bytes[..]), Err(AttrError::TooShort)));
    // A valid MED, then an ORIGIN of 5.
    let bytes = [0x80u8, 4, 4, 0, 0, 0, 1, 0x40, 1, 1, 5];
    assert!(matches!(PathAttributes::parse(&bytes[..]), Err(AttrError::InvalidOrigin(5))));
    // An AS_PATH whose segment announces two numbers but holds one.
    let bytes = [0x40u8, 2, 6, 2, 2, 0, 0, 0xFD, 0xE8];
    assert!(matches!(PathAttributes::parse(&bytes[..]), Err(AttrError::TooShort)));
}
