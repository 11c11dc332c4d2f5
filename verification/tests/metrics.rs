use pathforge::metrics::{render_prometheus, render_text_summary, Metrics, MetricsSnapshot};

#[test]
fn test_metrics_increment() {
    let m = Metrics::new();
    m.inc(&m.sessions_established);
    m.inc(&m.sessions_established);
    m.inc(&m.messages_rx_update);
    assert_eq!(m.get(&m.sessions_established), 2);
    assert_eq!(m.get(&m.messages_rx_update), 1);
    assert_eq!(m.get(&m.sessions_active), 0);
}

#[test]
fn test_prometheus_output() {
    let m = Metrics::new();
    m.inc(&m.sessions_active);
    m.inc(&m.routes_received);
    m.inc(&m.routes_received);
    let out = m.prometheus_text();
    assert!(out.contains("bgp_sessions_active 1"));
    assert!(out.contains("bgp_routes_received_total 2"));
    assert!(out.contains("# HELP"));
    assert!(out.contains("# TYPE"));
}

#[test]
fn test_text_summary() {
    let m = Metrics::new();
    m.set(&m.routes_loc_rib, 42);
    let out = m.text_summary();
    assert!(out.contains("Loc-RIB:    42"));
}

fn snapshot() -> MetricsSnapshot {
    MetricsSnapshot {
        sessions_established: 1,
        sessions_failed: 2,
        sessions_active: 3,
        messages_rx_open: 4,
        messages_rx_keepalive: 5,
        messages_rx_update: 6,
        messages_rx_notification: 7,
        messages_tx_open: 8,
        messages_tx_keepalive: 9,
        messages_tx_update: 10,
        messages_tx_notification: 11,
        routes_received: 12,
        routes_withdrawn: 13,
        routes_loc_rib: 14,
        routes_advertised: 15,
        hold_timer_expirations: 16,
        parse_errors: 17,
        fsm_errors: 18,
    }
}

#[test]
fn prometheus_block_format() {
    let out = render_prometheus(&snapshot());
    assert!(out.starts_with(
        "# HELP bgp_sessions_active Currently active BGP sessions\n# TYPE bgp_sessions_active gauge\nbgp_sessions_active 3\n"
    ));
    assert!(out.contains("bgp_messages_received_total{type=\"update\"} 6\n"));
    assert!(out.ends_with("# TYPE bgp_fsm_errors_total counter\nbgp_fsm_errors_total 18\n"));
    assert_eq!(out.matches("# HELP").count(), 18);
}

#[test]
fn text_summary_layout() {
    let out = render_text_summary(&snapshot());
    assert!(out.starts_with("PathForge BGP Metrics\n=====================\nSessions:\nactive:      3\nestablished: 1 (total)\n"));
    assert!(out.contains("Routes:\nLoc-RIB:    14\nreceived:   12 (total)\n"));
    assert!(out.ends_with("fsm:         18\n"));
}

#[test]
fn set_overwrites_and_snapshot_reads_all() {
    let m = Metrics::default();
    m.set(&m.fsm_errors, 5);
    m.set(&m.fsm_errors, 3);
    m.inc(&m.parse_errors);
    let s = m.snapshot();
    assert_eq!(s.fsm_errors, 3);
    assert_eq!(s.parse_errors, 1);
    assert_eq!(s.routes_advertised, 0);
}
