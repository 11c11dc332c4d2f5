use pathforge::config::{default_hold_time, default_listen, Config, ConfigError, NeighborConfig, PolicyConfig, RouterConfig};
use pathforge::mp::IpAddress;

fn ip(a: u8, b: u8, c: u8, d: u8) -> u32 {
    u32::from_be_bytes([a, b, c, d])
}

fn config(local_as: u32, hold_time: u16) -> Config {
    Config {
        router: RouterConfig {
            local_as,
            router_id: ip(1, 2, 3, 4),
            listen: default_listen(),
            hold_time,
            keepalive_interval: None,
        },
        neighbors: vec![],
        policy: PolicyConfig::default(),
    }
}

#[test]
fn test_minimal_config() {
    let cfg = config(65000, default_hold_time());
    assert!(cfg.validate().is_ok());
    assert_eq!(cfg.router.local_as, 65000);
    assert_eq!(cfg.router.hold_time, 90);
    assert!(cfg.neighbors.is_empty());
}

#[test]
fn test_invalid_hold_time() {
    let cfg = config(65000, 2);
    assert_eq!(cfg.validate(), Err(ConfigError::HoldTimeTooShort));
}

#[test]
fn test_invalid_as() {
    let cfg = config(0, 90);
    assert_eq!(cfg.validate(), Err(ConfigError::ZeroLocalAs));
}

#[test]
fn zero_and_three_second_hold_times_are_accepted() {
    assert!(config(1, 0).validate().is_ok());
    assert!(config(1, 3).validate().is_ok());
    assert_eq!(ConfigError::ZeroLocalAs.message(), "local_as must be non-zero");
    assert_eq!(ConfigError::HoldTimeTooShort.message(), "hold_time must be 0 or >= 3 seconds");
}

#[test]
fn defaults_and_neighbor_address() {
    let l = default_listen();
    assert_eq!(l.ip, IpAddress::V4(0));
    assert_eq!(l.port, 179);
    let n = NeighborConfig {
        addr: IpAddress::V4(ip(192, 168, 1, 2)),
        remote_as: 65002,
        hold_time: None,
        description: None,
        route_reflector_client: false,
        import_policy: None,
        export_policy: None,
    };
    let s = n.socket_addr(1179);
    assert_eq!(s.ip, IpAddress::V4(ip(192, 168, 1, 2)));
    assert_eq!(s.port, 1179);
}
