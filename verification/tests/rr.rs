use pathforge::attr::PathAttributes;
use pathforge::mp::IpAddress;
use pathforge::net::SocketAddress;
use pathforge::rr::{RouteReflector, RrConfig, RrRole};

fn ip(a: u8, b: u8, c: u8, d: u8) -> u32 {
    u32::from_be_bytes([a, b, c, d])
}

fn make_rr() -> RouteReflector {
    let cfg = RrConfig::new(ip(10, 0, 0, 1));
    RouteReflector::new(cfg, ip(10, 0, 0, 1))
}

fn peer(n: u8) -> SocketAddress {
    SocketAddress::new(IpAddress::V4(ip(10, 0, 0, n)), 179)
}

#[test]
fn test_reflect_client_to_client() {
    let rr = make_rr();
    assert!(rr.should_reflect(RrRole::Client, RrRole::Client, peer(2), peer(3)));
}

#[test]
fn test_reflect_client_to_non_client() {
    let rr = make_rr();
    assert!(rr.should_reflect(RrRole::Client, RrRole::NonClient, peer(2), peer(3)));
}

#[test]
fn test_no_reflect_non_client_to_non_client() {
    let rr = make_rr();
    assert!(!rr.should_reflect(RrRole::NonClient, RrRole::NonClient, peer(2), peer(3)));
}

#[test]
fn test_reflect_non_client_to_client() {
    let rr = make_rr();
    assert!(rr.should_reflect(RrRole::NonClient, RrRole::Client, peer(2), peer(3)));
}

#[test]
fn test_no_reflect_to_originator() {
    let rr = make_rr();
    assert!(!rr.should_reflect(RrRole::Client, RrRole::Client, peer(2), peer(2)));
}

#[test]
fn test_cluster_loop_detection() {
    let rr = make_rr();
    let attrs = PathAttributes { cluster_list: vec![ip(10, 0, 0, 1)], ..Default::default() };
    assert!(rr.has_cluster_loop(&attrs));
    let attrs2 = PathAttributes { cluster_list: vec![ip(10, 0, 0, 99)], ..Default::default() };
    assert!(!rr.has_cluster_loop(&attrs2));
}

#[test]
fn test_originator_loop_detection() {
    let rr = make_rr();
    let attrs = PathAttributes { originator_id: Some(ip(10, 0, 0, 1)), ..Default::default() };
    assert!(rr.has_originator_loop(&attrs));
}

#[test]
fn test_prepare_reflected_attrs() {
    let rr = make_rr();
    let attrs = PathAttributes::default();
    let originator = ip(10, 0, 0, 5);
    let reflected = rr.prepare_reflected_attrs(&attrs, originator);
    assert_eq!(reflected.originator_id, Some(originator));
    assert_eq!(reflected.cluster_list, vec![ip(10, 0, 0, 1)]);
}

#[test]
fn test_cluster_list_prepend() {
    let rr = make_rr();
    let attrs = PathAttributes { cluster_list: vec![ip(10, 0, 0, 99)], ..Default::default() };
    let reflected = rr.prepare_reflected_attrs(&attrs, ip(10, 0, 0, 5));
    assert_eq!(reflected.cluster_list[0], ip(10, 0, 0, 1));
    assert_eq!(reflected.cluster_list[1], ip(10, 0, 0, 99));
}

#[test]
fn test_originator_id_not_overwritten() {
    let rr = make_rr();
    let existing = ip(10, 0, 0, 50);
    let attrs = PathAttributes { originator_id: Some(existing), ..Default::default() };
    let reflected = rr.prepare_reflected_attrs(&attrs, ip(10, 0, 0, 99));
    assert_eq!(reflected.originator_id, Some(existing));
}

#[test]
fn a_reflected_route_loops_back_to_its_reflector() {
    let rr = make_rr();
    let reflected = rr.prepare_reflected_attrs(&PathAttributes::default(), ip(10, 0, 0, 5));
    assert!(rr.has_loop(&reflected));
    assert!(!rr.has_loop(&PathAttributes::default()));
}

#[test]
fn routes_from_external_peers_go_to_every_peer() {
    let rr = make_rr();
    assert!(rr.should_reflect(RrRole::External, RrRole::NonClient, peer(2), peer(3)));
    assert!(rr.should_reflect(RrRole::External, RrRole::External, peer(2), peer(3)));
}
