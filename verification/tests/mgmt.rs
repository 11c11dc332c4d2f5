use pathforge::attr::{AsPathSegment, Community, Origin, PathAttributes};
use pathforge::fsm::BgpState;
use pathforge::message::update::Prefix;
use pathforge::metrics::Metrics;
use pathforge::mgmt::{
    cmd_bgp_neighbors, cmd_bgp_rib, cmd_bgp_rib_prefix, cmd_bgp_summary, cmd_help, parse_command,
    process_command, Command, MgmtState, PeerInfo,
};
use pathforge::mp::IpAddress;
use pathforge::net::SocketAddress;
use pathforge::rib::Rib;

fn ip(a: u8, b: u8, c: u8, d: u8) -> u32 {
    u32::from_be_bytes([a, b, c, d])
}

fn empty_state() -> MgmtState {
    MgmtState::default()
}

fn rib_with_route() -> Rib {
    let mut rib = Rib::new();
    let attrs = PathAttributes {
        origin: Some(Origin::Igp),
        local_pref: Some(100),
        next_hop: Some(ip(10, 0, 0, 1)),
        as_path: vec![AsPathSegment::AsSequence(vec![65001, 65002])],
        ..Default::default()
    };
    let prefix = Prefix::new(ip(192, 168, 0, 0), 24);
    let peer = SocketAddress::new(IpAddress::V4(ip(10, 0, 0, 2)), 179);
    rib.process_update(peer, 65001, &[prefix], &attrs, &[]);
    rib
}

#[test]
fn test_show_bgp_summary_empty() {
    let out = cmd_bgp_summary(&empty_state(), &Rib::new());
    assert!(out.contains("Loc-RIB: 0") || out.contains("no peers"));
}

#[test]
fn test_show_bgp_rib_empty() {
    let out = cmd_bgp_rib(&Rib::new());
    assert!(out.contains("empty"));
}

#[test]
fn test_show_bgp_rib_prefix_not_found() {
    let out = cmd_bgp_rib_prefix(&Rib::new(), "10.0.0.0/8");
    assert!(out.contains("not found"));
}

#[test]
fn test_help() {
    let out = cmd_help();
    assert!(out.contains("show bgp summary"));
    assert!(out.contains("show bgp rib"));
}

#[test]
fn test_unknown_command() {
    let metrics = Metrics::new();
    let out = process_command("foo bar", &empty_state(), &Rib::new(), &metrics);
    assert!(out.contains("Unknown command"));
}

#[test]
fn test_show_rib_with_routes() {
    let rib = rib_with_route();
    let out = cmd_bgp_rib(&rib);
    assert!(out.contains("192.168.0.0/24"));
    assert!(out.contains("65001"));
}

#[test]
fn rib_table_lines_are_sorted_and_padded() {
    let mut rib = rib_with_route();
    let peer = SocketAddress::new(IpAddress::V4(ip(10, 0, 0, 3)), 179);
    rib.process_update(peer, 65003, &[Prefix::new(ip(10, 0, 0, 0), 8)], &PathAttributes::default(), &[]);
    let out = cmd_bgp_rib(&rib);
    let lines: Vec<&str> = out.lines().collect();
    assert_eq!(lines[0], "BGP Routing Table (Loc-RIB)");
    assert_eq!(
        lines[2],
        format!("{:<20} {:>8} {:>6} {:>6} {:<20} {}", "Network", "Local-Pref", "MED", "AS-Path", "Next-Hop", "Origin")
    );
    assert_eq!(lines[3], "-".repeat(80));
    assert_eq!(lines[4], format!("{:<20} {:>10} {:>6} {:>6} {:<20} {}", "10.0.0.0/8", 100, 0, "-", "-", "?"));
    assert_eq!(
        lines[5],
        format!("{:<20} {:>10} {:>6} {:>6} {:<20} {}", "192.168.0.0/24", 100, 0, "65001 65002", "10.0.0.1", "IGP")
    );
}

#[test]
fn rib_prefix_detail_and_errors() {
    let rib = rib_with_route();
    let out = cmd_bgp_rib_prefix(&rib, "192.168.0.0/24");
    assert_eq!(
        out,
        "BGP Prefix 192.168.0.0/24\n  Best path from:  10.0.0.2:179\n  Peer AS:         65001\n  Next-hop:        10.0.0.1\n  Local-pref:      100\n  MED:             0\n  Origin:          IGP\n  AS-path:         65001 65002\n"
    );
    assert_eq!(cmd_bgp_rib_prefix(&rib, "nonsense"), "Invalid prefix format: 'nonsense'. Use X.X.X.X/LEN\n");
    assert_eq!(cmd_bgp_rib_prefix(&rib, "1.2.3/8"), "Invalid address: '1.2.3'\n");
    assert_eq!(cmd_bgp_rib_prefix(&rib, "1.2.3.4/x"), "Invalid prefix length: 'x'\n");
}

#[test]
fn rib_prefix_detail_lists_communities() {
    let mut rib = Rib::new();
    let attrs = PathAttributes {
        communities: vec![Community(Community::NO_EXPORT), Community((1u32 << 16) | 2)],
        ..Default::default()
    };
    let peer = SocketAddress::new(IpAddress::V4(ip(10, 0, 0, 2)), 179);
    rib.process_update(peer, 1, &[Prefix::new(ip(10, 0, 0, 0), 8)], &attrs, &[]);
    let out = cmd_bgp_rib_prefix(&rib, "10.0.0.0/8");
    assert!(out.contains("  AS-path:         (empty)\n"));
    assert!(out.ends_with("  Communities:     no-export 1:2\n"));
}

fn state_with_peers() -> MgmtState {
    MgmtState {
        peers: vec![
            PeerInfo {
                addr: SocketAddress::new(IpAddress::V4(ip(192, 0, 2, 1)), 179),
                remote_as: 65002,
                state: BgpState::Established,
                description: Some("upstream".to_string()),
                uptime_secs: 42,
                routes_received: 7,
            },
            PeerInfo {
                addr: SocketAddress::new(IpAddress::V6(0x2001_0db8_0000_0000_0000_0000_0000_0001), 179),
                remote_as: 65003,
                state: BgpState::Idle,
                description: None,
                uptime_secs: 0,
                routes_received: 0,
            },
        ],
    }
}

#[test]
fn summary_with_peers() {
    let out = cmd_bgp_summary(&state_with_peers(), &rib_with_route());
    let lines: Vec<&str> = out.lines().collect();
    assert_eq!(lines[2], "Total prefixes in Loc-RIB: 1");
    assert_eq!(lines[4], format!("{:<22} {:>8} {:>12} {}", "Neighbor", "AS", "State", "Description"));
    assert_eq!(lines[6], format!("{:<22} {:>8} {} {}", "192.0.2.1:179", 65002, "Established", "upstream"));
    assert_eq!(lines[7], format!("{:<22} {:>8} {} {}", "[2001:db8::1]:179", 65003, "Idle", ""));
    assert!(!out.contains("no peers"));
}

#[test]
fn neighbors_all_and_filtered() {
    let st = state_with_peers();
    let all = cmd_bgp_neighbors(&st, None);
    assert!(all.starts_with("BGP neighbor 192.0.2.1:179\n  Remote AS:    65002\n  State:        Established\n  Routes rcvd:  7\n  Uptime:       42s\n  Description:  upstream\n\n"));
    assert!(all.contains("BGP neighbor [2001:db8::1]:179\n"));
    let one = cmd_bgp_neighbors(&st, Some("2001:db8::1"));
    assert!(one.starts_with("BGP neighbor [2001:db8::1]:179\n"));
    assert!(!one.contains("192.0.2.1"));
    assert_eq!(cmd_bgp_neighbors(&st, Some("10.9.9.9")), "No matching neighbors.\n");
}

#[test]
fn commands_are_split_on_white_space() {
    assert!(matches!(parse_command("  show   bgp\tsummary "), Command::Summary));
    assert!(matches!(parse_command("show bgp rib prefix 10.0.0.0/8"), Command::RibPrefix("10.0.0.0/8")));
    assert!(matches!(parse_command("show bgp neighbors 1.2.3.4"), Command::Neighbors(Some("1.2.3.4"))));
    assert!(matches!(parse_command("show bgp neighbors"), Command::Neighbors(None)));
    assert!(matches!(parse_command("show bgp metrics"), Command::Metrics));
    assert!(matches!(parse_command("metrics"), Command::Prometheus));
    assert!(matches!(parse_command(""), Command::Help));
    assert!(matches!(parse_command("exit"), Command::Quit));
    assert!(matches!(parse_command("show bgp"), Command::Unknown));
}

#[test]
fn process_command_answers() {
    let metrics = Metrics::new();
    let st = empty_state();
    let rib = Rib::new();
    assert_eq!(process_command("quit", &st, &rib, &metrics), "Bye!\n");
    assert_eq!(process_command("help", &st, &rib, &metrics), cmd_help());
    assert_eq!(
        process_command("foo bar", &st, &rib, &metrics),
        "Unknown command: 'foo bar'\nType 'help' for available commands.\n"
    );
    assert!(process_command("metrics", &st, &rib, &metrics).contains("bgp_sessions_active 0"));
    assert!(process_command("show bgp metrics", &st, &rib, &metrics).starts_with("PathForge BGP Metrics\n"));
    assert_eq!(process_command("show bgp rib", &st, &rib, &metrics), "Loc-RIB is empty.\n");
}
