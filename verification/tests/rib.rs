use pathforge::attr::{AsPathSegment, Origin, PathAttributes};
use pathforge::message::update::Prefix;
use pathforge::mp::IpAddress;
use pathforge::net::SocketAddress;
use pathforge::rib::{PrefixKey, Rib, Route, RouteTable};
use pathforge::rpki::{Roa, RovState, RpkiMode};

fn ip(a: u8, b: u8, c: u8, d: u8) -> u32 {
    u32::from_be_bytes([a, b, c, d])
}

fn peer(n: u8) -> SocketAddress {
    SocketAddress::new(IpAddress::V4(ip(10, 0, 0, n)), 179)
}

#[test]
fn test_basic_route_insertion() {
    let mut rib = Rib::new();
    let prefix = Prefix::new(ip(10, 0, 0, 0), 8);
    let attrs =
        PathAttributes { origin: Some(Origin::Igp), local_pref: Some(100), ..Default::default() };
    rib.process_update(peer(1), 65001, &[prefix], &attrs, &[]);
    assert_eq!(rib.prefix_count(), 1);
    let best = rib.loc_rib().get(&PrefixKey::from(&prefix)).unwrap();
    assert_eq!(best.peer_addr, peer(1));
}

#[test]
fn test_best_path_local_pref() {
    let mut rib = Rib::new();
    let prefix = Prefix::new(ip(192, 168, 0, 0), 24);
    let attrs_low = PathAttributes { local_pref: Some(50), ..Default::default() };
    rib.process_update(peer(1), 65001, &[prefix], &attrs_low, &[]);
    let attrs_high = PathAttributes { local_pref: Some(200), ..Default::default() };
    rib.process_update(peer(2), 65002, &[prefix], &attrs_high, &[]);
    let best = rib.loc_rib().get(&PrefixKey::from(&prefix)).unwrap();
    assert_eq!(best.peer_addr, peer(2), "Higher LOCAL_PREF should win");
}

#[test]
fn test_best_path_as_path_length() {
    let mut rib = Rib::new();
    let prefix = Prefix::new(ip(172, 16, 0, 0), 16);
    let attrs_long = PathAttributes {
        local_pref: Some(100),
        as_path: vec![AsPathSegment::AsSequence(vec![65001, 65002, 65003])],
        ..Default::default()
    };
    rib.process_update(peer(1), 65001, &[prefix], &attrs_long, &[]);
    let attrs_short = PathAttributes {
        local_pref: Some(100),
        as_path: vec![AsPathSegment::AsSequence(vec![65004])],
        ..Default::default()
    };
    rib.process_update(peer(2), 65002, &[prefix], &attrs_short, &[]);
    let best = rib.loc_rib().get(&PrefixKey::from(&prefix)).unwrap();
    assert_eq!(best.peer_addr, peer(2), "Shorter AS_PATH should win");
}

#[test]
fn test_withdraw_route() {
    let mut rib = Rib::new();
    let prefix = Prefix::new(ip(10, 0, 0, 0), 8);
    let attrs = PathAttributes::default();
    rib.process_update(peer(1), 65001, &[prefix], &attrs, &[]);
    assert_eq!(rib.prefix_count(), 1);
    rib.process_update(peer(1), 65001, &[], &attrs, &[prefix]);
    assert_eq!(rib.prefix_count(), 0);
}

#[test]
fn test_remove_peer() {
    let mut rib = Rib::new();
    let p1 = Prefix::new(ip(10, 0, 0, 0), 8);
    let p2 = Prefix::new(ip(172, 16, 0, 0), 16);
    let attrs = PathAttributes::default();
    rib.process_update(peer(1), 65001, &[p1, p2], &attrs, &[]);
    assert_eq!(rib.prefix_count(), 2);
    rib.remove_peer(peer(1));
    assert_eq!(rib.prefix_count(), 0);
}

#[test]
fn test_summary() {
    let mut rib = Rib::new();
    let p1 = Prefix::new(ip(10, 0, 0, 0), 8);
    let p2 = Prefix::new(ip(172, 16, 0, 0), 16);
    let attrs = PathAttributes::default();
    rib.process_update(peer(1), 65001, &[p1, p2], &attrs, &[]);
    let (peers, adj, loc) = rib.summary();
    assert_eq!(peers, 1);
    assert_eq!(adj, 2);
    assert_eq!(loc, 2);
}

#[test]
fn test_longest_prefix_match_basic() {
    let mut rib = Rib::new();
    let attrs = PathAttributes::default();
    let p8 = Prefix::new(ip(10, 0, 0, 0), 8);
    let p24 = Prefix::new(ip(10, 1, 2, 0), 24);
    rib.process_update(peer(1), 65001, &[p8, p24], &attrs, &[]);
    let (key, _) = rib.longest_match(ip(10, 1, 2, 5)).unwrap();
    assert_eq!(key.prefix_len, 24);
    let (key, _) = rib.longest_match(ip(10, 2, 0, 1)).unwrap();
    assert_eq!(key.prefix_len, 8);
    assert!(rib.longest_match(ip(192, 0, 0, 1)).is_none());
}

#[test]
fn test_longest_prefix_match_default_route() {
    let mut rib = Rib::new();
    let attrs = PathAttributes::default();
    let default = Prefix::new(ip(0, 0, 0, 0), 0);
    let specific = Prefix::new(ip(10, 0, 0, 0), 8);
    rib.process_update(peer(1), 65001, &[default, specific], &attrs, &[]);
    let (key, _) = rib.longest_match(ip(10, 5, 0, 1)).unwrap();
    assert_eq!(key.prefix_len, 8);
    let (key, _) = rib.longest_match(ip(1, 2, 3, 4)).unwrap();
    assert_eq!(key.prefix_len, 0);
}

#[test]
fn test_longest_prefix_match_empty_rib() {
    let rib = Rib::new();
    assert!(rib.longest_match(ip(10, 0, 0, 1)).is_none());
}

#[test]
fn test_graceful_restart_mark_stale() {
    let mut rib = Rib::new();
    let p = Prefix::new(ip(10, 0, 0, 0), 8);
    let attrs = PathAttributes::default();
    rib.process_update(peer(1), 65001, &[p], &attrs, &[]);
    assert!(!rib.adj_rib_in(&peer(1)).unwrap().get(&PrefixKey::from(&p)).unwrap().stale);
    rib.mark_peer_stale(peer(1));
    assert!(rib.adj_rib_in(&peer(1)).unwrap().get(&PrefixKey::from(&p)).unwrap().stale);
    assert_eq!(rib.prefix_count(), 1);
    assert_eq!(rib.stale_route_count(), 1);
}

#[test]
fn test_graceful_restart_refresh_clears_stale() {
    let mut rib = Rib::new();
    let p = Prefix::new(ip(10, 0, 0, 0), 8);
    let attrs = PathAttributes::default();
    rib.process_update(peer(1), 65001, &[p], &attrs, &[]);
    rib.mark_peer_stale(peer(1));
    rib.process_update(peer(1), 65001, &[p], &attrs, &[]);
    assert!(!rib.adj_rib_in(&peer(1)).unwrap().get(&PrefixKey::from(&p)).unwrap().stale);
    assert_eq!(rib.stale_route_count(), 0);
}

#[test]
fn test_graceful_restart_remove_stale() {
    let mut rib = Rib::new();
    let p1 = Prefix::new(ip(10, 0, 0, 0), 8);
    let p2 = Prefix::new(ip(172, 16, 0, 0), 16);
    let attrs = PathAttributes::default();
    rib.process_update(peer(1), 65001, &[p1, p2], &attrs, &[]);
    rib.mark_peer_stale(peer(1));
    rib.process_update(peer(1), 65001, &[p1], &attrs, &[]);
    assert_eq!(rib.stale_route_count(), 1);
    let removed = rib.remove_stale_for_peer(peer(1));
    assert_eq!(removed.len(), 1);
    assert_eq!(removed[0], PrefixKey::from(&p2));
    assert_eq!(rib.prefix_count(), 1);
}

#[test]
fn origin_then_med_then_arrival_break_ties() {
    let mut rib = Rib::new();
    let p = Prefix::new(ip(198, 51, 100, 0), 24);
    let incomplete = PathAttributes { origin: Some(Origin::Incomplete), ..Default::default() };
    let igp = PathAttributes { origin: Some(Origin::Igp), multi_exit_disc: Some(50), ..Default::default() };
    let igp_low_med = PathAttributes { origin: Some(Origin::Igp), multi_exit_disc: Some(10), ..Default::default() };
    rib.process_update(peer(1), 1, &[p], &incomplete, &[]);
    rib.process_update(peer(2), 2, &[p], &igp, &[]);
    assert_eq!(rib.loc_rib().get(&PrefixKey::from(&p)).unwrap().peer_addr, peer(2));
    rib.process_update(peer(3), 3, &[p], &igp_low_med, &[]);
    assert_eq!(rib.loc_rib().get(&PrefixKey::from(&p)).unwrap().peer_addr, peer(3));
    // An identical route arriving later does not displace the older one.
    rib.process_update(peer(4), 4, &[p], &igp_low_med, &[]);
    assert_eq!(rib.loc_rib().get(&PrefixKey::from(&p)).unwrap().peer_addr, peer(3));
    // Withdrawing the best hands the prefix to the next best.
    rib.process_update(peer(3), 3, &[], &igp_low_med, &[p]);
    assert_eq!(rib.loc_rib().get(&PrefixKey::from(&p)).unwrap().peer_addr, peer(4));
}

#[test]
fn removing_a_peer_falls_back_to_the_other_peer() {
    let mut rib = Rib::new();
    let p = Prefix::new(ip(10, 0, 0, 0), 8);
    rib.process_update(peer(1), 1, &[p], &PathAttributes { local_pref: Some(300), ..Default::default() }, &[]);
    rib.process_update(peer(2), 2, &[p], &PathAttributes::default(), &[]);
    assert_eq!(rib.loc_rib().get(&PrefixKey::from(&p)).unwrap().peer_addr, peer(1));
    let removed = rib.remove_peer(peer(1));
    assert_eq!(removed, vec![PrefixKey::from(&p)]);
    assert_eq!(rib.loc_rib().get(&PrefixKey::from(&p)).unwrap().peer_addr, peer(2));
    assert!(rib.loc_rib().routes().iter().all(|r| r.peer_addr != peer(1)));
    assert!(rib.adj_rib_in(&peer(1)).is_none());
    assert!(rib.remove_peer(peer(9)).is_empty());
}

#[test]
fn strict_rpki_drops_invalid_routes_and_records_the_state() {
    let mut rib = Rib::new();
    rib.rpki.mode = RpkiMode::Strict;
    rib.rpki.add_roa(Roa::new(ip(10, 0, 0, 0), 8, 24, 65001));
    let good = Prefix::new(ip(10, 1, 0, 0), 16);
    let other = Prefix::new(ip(192, 0, 2, 0), 24);
    rib.process_update(peer(1), 65001, &[good, other], &PathAttributes::default(), &[]);
    rib.process_update(peer(2), 65099, &[good], &PathAttributes::default(), &[]);
    assert_eq!(rib.summary(), (2, 2, 2));
    let r = rib.adj_rib_in(&peer(1)).unwrap().get(&PrefixKey::from(&good)).unwrap();
    assert_eq!(r.rov_state, RovState::Valid);
    let r = rib.adj_rib_in(&peer(1)).unwrap().get(&PrefixKey::from(&other)).unwrap();
    assert_eq!(r.rov_state, RovState::NotFound);
    assert!(rib.adj_rib_in(&peer(2)).unwrap().is_empty());
}

#[test]
fn suppressed_advertisements_are_skipped() {
    let mut rib = Rib::new();
    let p1 = Prefix::new(ip(10, 0, 0, 0), 8);
    let p2 = Prefix::new(ip(11, 0, 0, 0), 8);
    rib.process_update_with_suppression(peer(1), 1, &[p1, p2], &PathAttributes::default(), &[], &[true, false]);
    assert!(rib.loc_rib().get(&PrefixKey::from(&p1)).is_none());
    assert!(rib.loc_rib().get(&PrefixKey::from(&p2)).is_some());
}

#[test]
fn a_prefix_both_advertised_and_withdrawn_ends_up_absent() {
    let mut rib = Rib::new();
    let p = Prefix::new(ip(10, 0, 0, 0), 8);
    rib.process_update(peer(1), 1, &[p], &PathAttributes::default(), &[p]);
    assert_eq!(rib.prefix_count(), 0);
    // The peer still has an (empty) Adj-RIB-In.
    assert_eq!(rib.summary(), (1, 0, 0));
}

#[test]
fn remove_stale_drops_an_emptied_peer() {
    let mut rib = Rib::new();
    let p = Prefix::new(ip(10, 0, 0, 0), 8);
    rib.process_update(peer(1), 1, &[p], &PathAttributes::default(), &[]);
    rib.mark_peer_stale(peer(1));
    assert_eq!(rib.remove_stale_for_peer(peer(1)), vec![PrefixKey::from(&p)]);
    assert!(rib.adj_rib_in(&peer(1)).is_none());
    assert_eq!(rib.summary(), (0, 0, 0));
}

#[test]
fn prefix_key_text_and_conversions() {
    let p = Prefix::new(ip(192, 168, 1, 0), 24);
    let k = PrefixKey::from(&p);
    assert_eq!(k, PrefixKey::from_prefix(&p));
    assert_eq!(k.to_string(), "192.168.1.0/24");
}

#[test]
fn route_table_insert_get_remove() {
    let mut t = RouteTable::new();
    let p = Prefix::new(ip(10, 0, 0, 0), 8);
    let r = Route::new(p, PathAttributes::default(), peer(1), 1, 7);
    t.insert(r);
    assert_eq!(t.len(), 1);
    assert!(t.contains_key(&PrefixKey::from(&p)));
    assert_eq!(t.get(&PrefixKey::from(&p)).unwrap().received_at, 7);
    t.insert(Route::new(p, PathAttributes::default(), peer(2), 2, 8));
    assert_eq!(t.len(), 1);
    assert_eq!(t.get(&PrefixKey::from(&p)).unwrap().peer_addr, peer(2));
    let removed = t.remove(&PrefixKey::from(&p)).unwrap();
    assert_eq!(removed.peer_as, 2);
    assert!(t.is_empty());
    assert!(t.remove(&PrefixKey::from(&p)).is_none());
}

#[test]
fn marking_again_counts_only_the_fresh_routes() {
    let mut rib = Rib::new();
    let p1 = Prefix::new(ip(10, 0, 0, 0), 8);
    let p2 = Prefix::new(ip(172, 16, 0, 0), 16);
    let p3 = Prefix::new(ip(192, 168, 0, 0), 16);
    rib.process_update(peer(1), 1, &[p1, p2], &PathAttributes::default(), &[]);
    rib.process_update(peer(2), 2, &[p3], &PathAttributes::default(), &[]);
    rib.mark_peer_stale(peer(1));
    rib.process_update(peer(1), 1, &[p1], &PathAttributes::default(), &[]);
    assert_eq!(rib.stale_route_count(), 1);
    rib.mark_peer_stale(peer(1));
    assert_eq!(rib.stale_route_count(), 2);
    rib.mark_peer_stale(peer(2));
    assert_eq!(rib.stale_route_count(), 3);
}
