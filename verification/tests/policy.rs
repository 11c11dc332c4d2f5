use pathforge::attr::{Community, PathAttributes};
use pathforge::config::{CommunityList, FilterAction, PolicyConfig, PrefixList, PrefixListEntry};
use pathforge::message::update::Prefix;
use pathforge::policy::{is_subnet, parse_community_str, parse_prefix, PolicyEngine};

fn ip(a: u8, b: u8, c: u8, d: u8) -> u32 {
    u32::from_be_bytes([a, b, c, d])
}

fn entry(action: FilterAction, prefix: &str, ge: Option<u8>, le: Option<u8>) -> PrefixListEntry {
    PrefixListEntry { action, prefix: prefix.to_string(), ge, le }
}

fn make_engine() -> PolicyEngine {
    PolicyEngine::new(PolicyConfig {
        prefix_lists: vec![
            PrefixList {
                name: "allow-rfc1918".to_string(),
                entries: vec![
                    entry(FilterAction::Permit, "10.0.0.0/8", Some(8), Some(24)),
                    entry(FilterAction::Permit, "192.168.0.0/16", None, None),
                    entry(FilterAction::Deny, "0.0.0.0/0", None, None),
                ],
            },
            PrefixList {
                name: "exact-only".to_string(),
                entries: vec![entry(FilterAction::Permit, "172.16.0.0/12", None, None)],
            },
        ],
        community_lists: vec![CommunityList {
            name: "no-export-comms".to_string(),
            communities: vec!["no-export".to_string(), "65001:100".to_string()],
        }],
    })
}

fn prefix(a: u32, len: u8) -> Prefix {
    Prefix::new(a, len)
}

#[test]
fn test_permit_in_range() {
    let eng = make_engine();
    let attrs = PathAttributes::default();
    assert!(eng.apply("allow-rfc1918", &prefix(ip(10, 0, 0, 0), 8), &attrs));
    assert!(eng.apply("allow-rfc1918", &prefix(ip(10, 1, 0, 0), 16), &attrs));
    assert!(!eng.apply("allow-rfc1918", &prefix(ip(10, 0, 0, 0), 25), &attrs));
}

#[test]
fn test_exact_prefix_match() {
    let eng = make_engine();
    let attrs = PathAttributes::default();
    assert!(eng.apply("allow-rfc1918", &prefix(ip(192, 168, 0, 0), 16), &attrs));
    assert!(!eng.apply("allow-rfc1918", &prefix(ip(192, 168, 1, 0), 24), &attrs));
}

#[test]
fn test_exact_only_policy() {
    let eng = make_engine();
    let attrs = PathAttributes::default();
    assert!(eng.apply("exact-only", &prefix(ip(172, 16, 0, 0), 12), &attrs));
    assert!(!eng.apply("exact-only", &prefix(ip(172, 16, 1, 0), 24), &attrs));
}

#[test]
fn test_unknown_policy_default_permit() {
    let eng = make_engine();
    let attrs = PathAttributes::default();
    assert!(eng.apply("nonexistent", &prefix(ip(1, 2, 3, 0), 24), &attrs));
}

#[test]
fn test_community_matching() {
    let eng = make_engine();
    let attrs =
        PathAttributes { communities: vec![Community(Community::NO_EXPORT)], ..Default::default() };
    assert!(eng.matches_community_list("no-export-comms", &attrs));
    let attrs2 = PathAttributes {
        communities: vec![Community(((65001u32) << 16) | 100)],
        ..Default::default()
    };
    assert!(eng.matches_community_list("no-export-comms", &attrs2));
    let attrs3 = PathAttributes::default();
    assert!(!eng.matches_community_list("no-export-comms", &attrs3));
}

#[test]
fn test_community_parse() {
    assert_eq!(parse_community_str("no-export"), Some(Community(Community::NO_EXPORT)));
    let c = parse_community_str("65001:200").unwrap();
    assert_eq!(c.asn(), 65001);
    assert_eq!(c.value(), 200);
    assert!(parse_community_str("invalid").is_none());
}

#[test]
fn test_is_subnet() {
    assert!(is_subnet(ip(10, 1, 0, 0), 16, ip(10, 0, 0, 0), 8));
    assert!(!is_subnet(ip(192, 168, 0, 0), 16, ip(10, 0, 0, 0), 8));
    assert!(is_subnet(ip(1, 2, 3, 4), 32, ip(0, 0, 0, 0), 0));
}

#[test]
fn prefix_text_is_read_as_std_reads_addresses_and_lengths() {
    assert_eq!(parse_prefix("10.0.0.0/8"), Some((ip(10, 0, 0, 0), 8)));
    assert_eq!(parse_prefix("10.0.0.0/+8"), Some((ip(10, 0, 0, 0), 8)));
    assert_eq!(parse_prefix("10.0.0.0/40"), Some((ip(10, 0, 0, 0), 40)));
    assert_eq!(parse_prefix("10.0.0.0"), None);
    assert_eq!(parse_prefix("10.0.0/8"), None);
    assert_eq!(parse_prefix("10.0.0.256/8"), None);
    assert_eq!(parse_prefix("10.0.0.01/8"), None);
    assert_eq!(parse_prefix("10.0.0.0/256"), None);
    assert_eq!(parse_prefix("10.0.0.0/8/9"), None);
}

#[test]
fn community_text_limits() {
    assert_eq!(parse_community_str("no-advertise"), Some(Community(Community::NO_ADVERTISE)));
    assert_eq!(parse_community_str("no-export-subconfed"), Some(Community(Community::NO_EXPORT_SUBCONFED)));
    assert_eq!(parse_community_str("65535:65535"), Some(Community(0xFFFF_FFFF)));
    assert!(parse_community_str("65536:1").is_none());
    assert!(parse_community_str("1:").is_none());
    assert!(parse_community_str(":1").is_none());
}

#[test]
fn has_community_by_text() {
    let eng = make_engine();
    let attrs = PathAttributes { communities: vec![Community((7u32 << 16) | 9)], ..Default::default() };
    assert!(eng.has_community(&attrs, "7:9"));
    assert!(!eng.has_community(&attrs, "7:10"));
    assert!(!eng.has_community(&attrs, "garbage"));
}

#[test]
fn unknown_community_list_matches_nothing() {
    let eng = make_engine();
    let attrs = PathAttributes { communities: vec![Community(Community::NO_EXPORT)], ..Default::default() };
    assert!(!eng.matches_community_list("missing", &attrs));
}

#[test]
fn ge_le_bounds_and_default_deny() {
    let eng = PolicyEngine::new(PolicyConfig {
        prefix_lists: vec![PrefixList {
            name: "p".to_string(),
            entries: vec![
                entry(FilterAction::Deny, "bad", None, None),
                entry(FilterAction::Permit, "172.16.0.0/12", Some(24), Some(32)),
            ],
        }],
        community_lists: vec![],
    });
    let attrs = PathAttributes::default();
    assert!(eng.apply("p", &prefix(ip(172, 16, 5, 0), 24), &attrs));
    assert!(!eng.apply("p", &prefix(ip(172, 16, 0, 0), 16), &attrs));
    assert!(!eng.apply("p", &prefix(ip(10, 0, 0, 0), 24), &attrs));
    assert!(eng.can_apply("p", &prefix(ip(10, 0, 0, 0), 24)));
}

#[test]
fn an_entry_longer_than_32_bits_cannot_be_checked_against_a_long_prefix() {
    let eng = PolicyEngine::new(PolicyConfig {
        prefix_lists: vec![PrefixList {
            name: "p".to_string(),
            entries: vec![entry(FilterAction::Permit, "10.0.0.0/40", None, None)],
        }],
        community_lists: vec![],
    });
    assert!(!eng.can_apply("p", &prefix(ip(10, 0, 0, 0), 40)));
    assert!(eng.can_apply("p", &prefix(ip(10, 0, 0, 0), 24)));
    assert!(!eng.apply("p", &prefix(ip(10, 0, 0, 0), 24), &PathAttributes::default()));
}

#[test]
fn community_text_reads_back() {
    for v in [0u32, 1, 65535, 65536, 0xFDE8_0064, 0xFFFF_FF01, 0xFFFF_FF02, 0xFFFF_FF03, 0xFFFF_FF04, u32::MAX] {
        let c = Community(v);
        assert_eq!(parse_community_str(&c.to_string()), Some(c));
    }
}
