use bytes::BytesMut;
use pathforge::capabilities::Capability;
use pathforge::fsm::{next_state, BgpEvent, BgpState};
use pathforge::message::keepalive::KeepaliveMessage;
use pathforge::message::notification::NotificationMessage;
use pathforge::message::open::OpenMessage;
use pathforge::message::update::{Prefix, UpdateMessage};
use pathforge::message::BgpMessage;
use pathforge::mp::IpAddress;
use pathforge::net::SocketAddress;
use pathforge::rib::{PrefixKey, Rib};
use pathforge::attr::PathAttributes;
use pathforge::peer::{apply_rib_action, timer_action, DisconnectAction, Peer, RibAction, SessionError, TimerAction};
use pathforge::timer::{hold_expired_after, keepalive_due_after, BgpTimers, LocalConfig};

fn ip(a: u8, b: u8, c: u8, d: u8) -> u32 {
    u32::from_be_bytes([a, b, c, d])
}

fn frame(bytes: BytesMut) -> BgpMessage {
    let mut buf = bytes;
    BgpMessage::parse(&mut buf).unwrap().unwrap()
}

fn session() -> Peer {
    let addr = SocketAddress::new(IpAddress::V4(ip(10, 0, 0, 2)), 179);
    Peer::incoming(addr, LocalConfig::new(65001, ip(1, 1, 1, 1)))
}

#[test]
fn fsm_follows_rfc_4271_transitions() {
    assert_eq!(next_state(BgpState::Idle, BgpEvent::ManualStart), BgpState::Connect);
    assert_eq!(next_state(BgpState::Connect, BgpEvent::TcpConnectionFail), BgpState::Active);
    assert_eq!(next_state(BgpState::Active, BgpEvent::TcpConnectionConfirmed), BgpState::OpenSent);
    assert_eq!(next_state(BgpState::OpenSent, BgpEvent::BgpOpen), BgpState::OpenConfirm);
    assert_eq!(next_state(BgpState::OpenConfirm, BgpEvent::KeepAliveMsg), BgpState::Established);
    assert_eq!(next_state(BgpState::Established, BgpEvent::NotifMsg), BgpState::Idle);
    assert_eq!(next_state(BgpState::Established, BgpEvent::UpdateMsg), BgpState::Established);
    assert_eq!(next_state(BgpState::OpenSent, BgpEvent::HoldTimerExpired), BgpState::Idle);
    assert_eq!(next_state(BgpState::Connect, BgpEvent::ManualStop), BgpState::Idle);
    assert_eq!(next_state(BgpState::Idle, BgpEvent::KeepAliveMsg), BgpState::Idle);
    assert_eq!(BgpState::OpenConfirm.to_string(), "OpenConfirm");
}

#[test]
fn incoming_session_starts_in_open_sent() {
    let p = session();
    assert_eq!(p.state, BgpState::OpenSent);
    assert_eq!(p.remote_as, 0);
    assert_eq!(p.timers.hold_time, 90);
    assert_eq!(p.timers.keepalive_interval, 30);
}

#[test]
fn open_message_announces_local_capabilities() {
    let p = session();
    let open = p.open_message();
    assert_eq!(open.my_as, 65001);
    assert_eq!(open.hold_time, 90);
    assert_eq!(open.bgp_id, ip(1, 1, 1, 1));
    let caps = Capability::parse_from_open_params(&open.optional_params);
    assert_eq!(
        caps,
        vec![
            Capability::FourOctetAsn { asn: 65001 },
            Capability::RouteRefresh,
            Capability::MultiProtocol { afi: 1, safi: 1 },
            Capability::GracefulRestart { restart_time: 120, flags: 0 },
        ]
    );
    let mut big = session();
    big.local.local_as = 4_200_000_000;
    assert_eq!(big.open_message().my_as, 65535);
}

#[test]
fn open_then_keepalive_establishes_the_session() {
    let mut p = session();
    let mut open = OpenMessage::new(65002, 30, ip(2, 2, 2, 2));
    open.optional_params = Peer::incoming(p.addr, LocalConfig::new(65002, 0)).open_message().optional_params;
    let out = p.handle_message(&frame(open.serialize())).unwrap();
    assert!(out.send_keepalive);
    assert!(matches!(out.rib, RibAction::Nothing));
    assert_eq!(p.state, BgpState::OpenConfirm);
    assert_eq!(p.remote_as, 65002);
    assert_eq!(p.peer_router_id, Some(ip(2, 2, 2, 2)));
    assert_eq!(p.negotiated_hold_time, 30);
    assert_eq!(p.timers.keepalive_interval, 10);
    assert!(p.timers.hold_timer_start.is_some());
    assert_eq!(p.peer_capabilities.len(), 4);

    let out = p.handle_message(&frame(KeepaliveMessage.serialize())).unwrap();
    assert!(out.established);
    assert_eq!(p.state, BgpState::Established);
    assert!(p.timers.keepalive_timer_start.is_some());

    let out = p.handle_message(&frame(KeepaliveMessage.serialize())).unwrap();
    assert!(!out.established);
}

#[test]
fn update_hands_parsed_routes_to_the_rib() {
    let mut p = session();
    let mut u = UpdateMessage::new();
    u.nlri.push(Prefix::new(ip(10, 0, 0, 0), 8));
    u.withdrawn_routes.push(Prefix::new(ip(11, 0, 0, 0), 8));
    u.path_attributes = vec![0x40, 1, 1, 0];
    let out = p.handle_message(&frame(u.serialize())).unwrap();
    match out.rib {
        RibAction::ApplyUpdate { nlri, attrs, withdrawn, end_of_rib } => {
            assert_eq!(nlri, vec![Prefix::new(ip(10, 0, 0, 0), 8)]);
            assert_eq!(withdrawn, vec![Prefix::new(ip(11, 0, 0, 0), 8)]);
            assert_eq!(attrs.origin, Some(pathforge::attr::Origin::Igp));
            assert!(!end_of_rib);
        },
        _ => panic!("expected an update for the RIB"),
    }
    let out = p.handle_message(&frame(UpdateMessage::new().serialize())).unwrap();
    assert!(matches!(out.rib, RibAction::ApplyUpdate { end_of_rib: true, .. }));
}

#[test]
fn malformed_attributes_are_an_error() {
    let mut p = session();
    let mut u = UpdateMessage::new();
    u.path_attributes = vec![0x40, 1, 1, 9];
    assert!(matches!(p.handle_message(&frame(u.serialize())), Err(SessionError::Attributes(_))));
}

#[test]
fn notification_fails_the_session_and_drops_routes() {
    let mut p = session();
    let out = p.handle_message(&frame(NotificationMessage::cease().serialize())).unwrap();
    assert!(out.session_failed);
    assert!(matches!(out.rib, RibAction::RemovePeerRoutes));
}

#[test]
fn timer_decisions() {
    assert_eq!(timer_action(BgpState::Established, true, true), TimerAction::HoldExpired);
    assert_eq!(timer_action(BgpState::Established, false, true), TimerAction::SendKeepalive);
    assert_eq!(timer_action(BgpState::OpenSent, false, true), TimerAction::Wait);
    assert!(hold_expired_after(90, 90));
    assert!(!hold_expired_after(90, 89));
    assert!(!hold_expired_after(0, 1000));
    assert!(keepalive_due_after(30, 31));
    assert!(!keepalive_due_after(0, 31));
}

#[test]
fn fresh_timers_behave_as_documented() {
    let mut t = BgpTimers::new(9);
    assert_eq!(t.keepalive_interval, 3);
    assert!(!t.hold_timer_expired());
    assert!(t.keepalive_due());
    t.reset_keepalive_timer();
    assert!(!t.keepalive_due());
    t.reset_hold_timer();
    assert!(!t.hold_timer_expired());
    let z = BgpTimers::new(0);
    assert!(!z.keepalive_due());
}

#[test]
fn established_session_sends_first_keepalive_at_once() {
    let mut p = session();
    p.state = BgpState::Established;
    assert_eq!(p.poll_timers(), TimerAction::SendKeepalive);
    assert_eq!(p.poll_timers(), TimerAction::Wait);
}

#[test]
fn disconnect_uses_graceful_restart_only_when_established() {
    let mut p = session();
    p.peer_capabilities = vec![
        Capability::RouteRefresh,
        Capability::GracefulRestart { restart_time: 200, flags: 0 },
    ];
    assert_eq!(p.disconnect_action(), DisconnectAction::RemoveRoutes);
    p.state = BgpState::Established;
    assert_eq!(p.disconnect_action(), DisconnectAction::MarkStale { restart_time: 200 });
    p.peer_capabilities = vec![];
    assert_eq!(p.disconnect_action(), DisconnectAction::RemoveRoutes);
}

#[test]
fn end_of_rib_and_notification_reach_the_rib() {
    let mut p = session();
    let addr = p.addr;
    let mut rib = Rib::new();
    let p1 = Prefix::new(ip(10, 0, 0, 0), 8);
    let p2 = Prefix::new(ip(172, 16, 0, 0), 16);
    rib.process_update(addr, 65002, &[p1, p2], &PathAttributes::default(), &[]);
    rib.mark_peer_stale(addr);
    // The restarted peer re-advertises p1, then sends End-of-RIB.
    let refresh = RibAction::ApplyUpdate {
        nlri: vec![p1],
        attrs: PathAttributes::default(),
        withdrawn: vec![],
        end_of_rib: false,
    };
    assert_eq!(apply_rib_action(&mut rib, addr, 65002, &refresh, &[false]), 2);
    assert_eq!(rib.stale_route_count(), 1);
    let eor = p.handle_message(&frame(UpdateMessage::new().serialize())).unwrap();
    assert_eq!(apply_rib_action(&mut rib, addr, 65002, &eor.rib, &[]), 1);
    assert_eq!(rib.stale_route_count(), 0);
    assert!(rib.loc_rib().get(&PrefixKey::from(&p1)).is_some());
    assert!(rib.loc_rib().get(&PrefixKey::from(&p2)).is_none());
    assert_eq!(apply_rib_action(&mut rib, addr, 65002, &RibAction::Nothing, &[]), 1);
    let notif = p.handle_message(&frame(NotificationMessage::cease().serialize())).unwrap();
    assert!(matches!(notif.rib, RibAction::RemovePeerRoutes));
    assert_eq!(apply_rib_action(&mut rib, addr, 65002, &notif.rib, &[]), 0);
    assert!(rib.adj_rib_in(&addr).is_none());
}
