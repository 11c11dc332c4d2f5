use bytes::BytesMut;
use pathforge::message::keepalive::KeepaliveMessage;
use pathforge::message::notification::{ErrorCode, NotificationMessage};
use pathforge::message::open::{OpenMessage, OptionalParam};
use pathforge::message::route_refresh::RouteRefresh;
use pathforge::message::update::{Prefix, UpdateMessage};
use pathforge::message::{BgpMessage, Header, MessageError, MessageType, HEADER_LEN};

fn ip(a: u8, b: u8, c: u8, d: u8) -> u32 {
    u32::from_be_bytes([a, b, c, d])
}

#[test]
fn test_keepalive_serialize() {
    let msg = KeepaliveMessage;
    let mut bytes = msg.serialize();
    assert_eq!(bytes.len(), HEADER_LEN);
    let hdr = Header::parse(&mut bytes).unwrap();
    assert_eq!(hdr.msg_type, MessageType::Keepalive);
    assert_eq!(hdr.length, HEADER_LEN as u16);
}

#[test]
fn test_header_roundtrip() {
    let hdr = Header::new(MessageType::Keepalive, 0);
    let mut buf = BytesMut::new();
    hdr.serialize(&mut buf);
    assert_eq!(buf.len(), HEADER_LEN);
    let parsed = Header::parse(&mut buf).unwrap();
    assert_eq!(parsed.msg_type, MessageType::Keepalive);
    assert_eq!(parsed.length, HEADER_LEN as u16);
    assert_eq!(buf.len(), 0);
}

#[test]
fn test_invalid_marker() {
    let mut buf = BytesMut::from(&[0u8; 19][..]);
    assert!(matches!(Header::parse(&mut buf), Err(MessageError::InvalidMarker)));
}

#[test]
fn test_notification_roundtrip() {
    let orig = NotificationMessage::new(ErrorCode::HoldTimerExpired, 0);
    let serialized = orig.serialize();
    let parsed = NotificationMessage::parse(&serialized[HEADER_LEN..]).unwrap();
    assert_eq!(parsed.error_code, ErrorCode::HoldTimerExpired.code());
    assert_eq!(parsed.error_subcode, 0);
}

#[test]
fn test_cease_notification() {
    let msg = NotificationMessage::cease();
    let serialized = msg.serialize();
    assert_eq!(serialized.len(), HEADER_LEN + 2);
}

#[test]
fn test_open_roundtrip() {
    let orig = OpenMessage::new(65001, 90, ip(10, 0, 0, 1));
    let serialized = orig.serialize();
    let parsed = OpenMessage::parse(&serialized[HEADER_LEN..]).unwrap();
    assert_eq!(parsed.version, 4);
    assert_eq!(parsed.my_as, 65001);
    assert_eq!(parsed.hold_time, 90);
    assert_eq!(parsed.bgp_id, ip(10, 0, 0, 1));
}

#[test]
fn test_open_with_optional_param() {
    let mut msg = OpenMessage::new(65000, 180, ip(1, 1, 1, 1));
    msg.optional_params.push(OptionalParam { param_type: 2, value: vec![1, 4, 0, 1, 0, 1] });
    let serialized = msg.serialize();
    let parsed = OpenMessage::parse(&serialized[HEADER_LEN..]).unwrap();
    assert_eq!(parsed.optional_params.len(), 1);
    assert_eq!(parsed.optional_params[0].param_type, 2);
}

#[test]
fn test_route_refresh_ipv4_unicast() {
    let rr = RouteRefresh::new(1, 1);
    let bytes = rr.serialize();
    assert_eq!(bytes[18], 5);
    let parsed = RouteRefresh::parse(&bytes[19..]).unwrap();
    assert_eq!(parsed.afi, 1);
    assert_eq!(parsed.safi, 1);
}

#[test]
fn test_route_refresh_ipv6_unicast() {
    let rr = RouteRefresh::new(2, 1);
    let bytes = rr.serialize();
    let parsed = RouteRefresh::parse(&bytes[19..]).unwrap();
    assert_eq!(parsed, RouteRefresh { afi: 2, safi: 1 });
}

#[test]
fn test_route_refresh_too_short() {
    assert!(RouteRefresh::parse(&[1, 0, 0]).is_none());
}

#[test]
fn test_prefix_roundtrip() {
    let p = Prefix::new(ip(192, 168, 1, 0), 24);
    let mut buf = BytesMut::new();
    p.serialize(&mut buf);
    assert_eq!(buf.len(), 4);
    let (parsed, used) = Prefix::parse(&buf[..]).unwrap();
    assert_eq!(used, 4);
    assert_eq!(parsed.prefix_len, 24);
    assert_eq!(parsed.address, ip(192, 168, 1, 0));
}

#[test]
fn test_update_empty_roundtrip() {
    let msg = UpdateMessage::new();
    let serialized = msg.serialize();
    let parsed = UpdateMessage::parse(&serialized[HEADER_LEN..]).unwrap();
    assert!(parsed.withdrawn_routes.is_empty());
    assert!(parsed.nlri.is_empty());
}

#[test]
fn test_update_with_nlri() {
    let mut msg = UpdateMessage::new();
    msg.nlri.push(Prefix::new(ip(10, 0, 0, 0), 8));
    msg.nlri.push(Prefix::new(ip(172, 16, 0, 0), 12));
    let serialized = msg.serialize();
    let parsed = UpdateMessage::parse(&serialized[HEADER_LEN..]).unwrap();
    assert_eq!(parsed.nlri.len(), 2);
    assert_eq!(parsed.nlri[0].prefix_len, 8);
    assert_eq!(parsed.nlri[1].prefix_len, 12);
}

#[test]
fn prefix_longer_than_32_is_refused() {
    let data = [33u8, 1, 2, 3, 4, 5];
    assert!(matches!(Prefix::parse(&data[..]), Err(MessageError::Parse(_))));
}

#[test]
fn prefix_with_missing_octets_is_too_short() {
    let data = [24u8, 10, 0];
    assert!(matches!(
        Prefix::parse(&data[..]),
        Err(MessageError::TooShort { expected: 3, got: 2 })
    ));
}

#[test]
fn update_withdrawn_roundtrip_keeps_order() {
    let mut msg = UpdateMessage::new();
    msg.withdrawn_routes.push(Prefix::new(ip(10, 1, 0, 0), 16));
    msg.withdrawn_routes.push(Prefix::new(ip(192, 0, 2, 0), 24));
    msg.path_attributes = vec![0x40, 1, 1, 0];
    msg.nlri.push(Prefix::new(ip(198, 51, 100, 0), 24));
    let serialized = msg.serialize();
    let parsed = UpdateMessage::parse(&serialized[HEADER_LEN..]).unwrap();
    assert_eq!(parsed.withdrawn_routes, msg.withdrawn_routes);
    assert_eq!(parsed.path_attributes, msg.path_attributes);
    assert_eq!(parsed.nlri, msg.nlri);
}

#[test]
fn update_missing_attribute_length_is_too_short() {
    assert!(matches!(
        UpdateMessage::parse(&[0u8, 0, 7][..]),
        Err(MessageError::TooShort { expected: 4, got: 3 })
    ));
    // Two octets of withdrawn routes (10.0.0.0/8), then only one octet where
    // the two-octet attribute length belongs.
    let body = [0u8, 2, 8, 10, 7];
    assert!(matches!(
        UpdateMessage::parse(&body[..]),
        Err(MessageError::TooShort { expected: 2, got: 1 })
    ));
}

#[test]
fn header_with_unknown_type_is_refused() {
    let mut buf = vec![0xFFu8; 16];
    buf.extend_from_slice(&[0, 19, 9]);
    assert!(matches!(Header::read(&buf[..]), Err(MessageError::UnknownType(9))));
    let mut b = BytesMut::from(&buf[..]);
    assert!(matches!(Header::parse(&mut b), Err(MessageError::UnknownType(9))));
    assert_eq!(b.len(), 0);
}

#[test]
fn header_with_bad_length_is_refused() {
    let mut buf = vec![0xFFu8; 16];
    buf.extend_from_slice(&[0, 18, 4]);
    assert!(matches!(Header::read(&buf[..]), Err(MessageError::InvalidLength(18))));
    let mut b = BytesMut::from(&buf[..]);
    assert!(matches!(Header::parse(&mut b), Err(MessageError::InvalidLength(18))));
    assert_eq!(&b[..], &[4u8][..]);
}

#[test]
fn framing_waits_for_whole_message_then_consumes_it() {
    let ka = KeepaliveMessage.serialize();
    let mut buf = BytesMut::from(&ka[..10]);
    assert!(matches!(BgpMessage::parse(&mut buf), Ok(None)));
    assert_eq!(buf.len(), 10);
    buf.extend_from_slice(&ka[10..]);
    buf.extend_from_slice(&[1, 2, 3]);
    let msg = BgpMessage::parse(&mut buf).unwrap().unwrap();
    assert_eq!(msg.header.msg_type, MessageType::Keepalive);
    assert!(msg.body.is_empty());
    assert_eq!(&buf[..], &[1, 2, 3]);
}

#[test]
fn notification_body_roundtrip_with_data() {
    let mut n = NotificationMessage::new(ErrorCode::Cease, 2);
    n.data = vec![9, 8, 7];
    let bytes = n.serialize();
    assert_eq!(bytes.len(), HEADER_LEN + 5);
    let parsed = NotificationMessage::parse(&bytes[HEADER_LEN..]).unwrap();
    assert_eq!(parsed.error_code, 6);
    assert_eq!(parsed.error_subcode, 2);
    assert_eq!(parsed.data, vec![9, 8, 7]);
}

#[test]
fn notification_needs_two_octets() {
    assert!(matches!(
        NotificationMessage::parse(&[4u8][..]),
        Err(MessageError::TooShort { expected: 2, got: 1 })
    ));
}

#[test]
fn open_with_truncated_parameter_is_refused() {
    // version 4, AS 1, hold 90, id 1.1.1.1, params length 3: type 2, length 5, one byte.
    let body = [4u8, 0, 1, 0, 90, 1, 1, 1, 1, 3, 2, 5, 0];
    assert!(matches!(OpenMessage::parse(&body[..]), Err(MessageError::Parse(_))));
}

#[test]
fn header_parse_consumes_exactly_the_header() {
    let mut buf = BytesMut::new();
    Header::new(MessageType::Update, 4).serialize(&mut buf);
    buf.extend_from_slice(&[0, 0, 0, 0, 7]);
    let h = Header::parse(&mut buf).unwrap();
    assert_eq!(h.length, 23);
    assert_eq!(h.msg_type, MessageType::Update);
    assert_eq!(&buf[..], &[0u8, 0, 0, 0, 7][..]);
    let mut short = BytesMut::from(&[0xFFu8; 10][..]);
    assert!(matches!(Header::parse(&mut short), Err(MessageError::TooShort { expected: 19, got: 10 })));
    assert_eq!(short.len(), 10);
    let mut bad = BytesMut::from(&[0u8; 20][..]);
    assert!(matches!(Header::parse(&mut bad), Err(MessageError::InvalidMarker)));
    assert_eq!(bad.len(), 4);
}
