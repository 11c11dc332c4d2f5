//! Daemon counters, shared between sessions without locking, and their
//! Prometheus and plain-text renderings.

use crate::text::{push_decimal, push_str, spec_decimal};
use std::sync::atomic::{AtomicU64, Ordering};
use std::sync::Arc;
use vstd::prelude::*;

verus! {

/// BGP daemon metrics counters.
///
/// All counters use atomic u64 for thread-safe updates without locking.
pub struct Metrics {
    // Session counters
    pub sessions_established: AtomicU64,
    pub sessions_failed: AtomicU64,
    pub sessions_active: AtomicU64,
    // Message counters
    pub messages_rx_open: AtomicU64,
    pub messages_rx_keepalive: AtomicU64,
    pub messages_rx_update: AtomicU64,
    pub messages_rx_notification: AtomicU64,
    pub messages_tx_open: AtomicU64,
    pub messages_tx_keepalive: AtomicU64,
    pub messages_tx_update: AtomicU64,
    pub messages_tx_notification: AtomicU64,
    // Route counters
    pub routes_received: AtomicU64,
    pub routes_withdrawn: AtomicU64,
    pub routes_loc_rib: AtomicU64,
    pub routes_advertised: AtomicU64,
    // Error counters
    pub hold_timer_expirations: AtomicU64,
    pub parse_errors: AtomicU64,
    pub fsm_errors: AtomicU64,
}

/// The counters' values at one moment.
#[derive(Debug, Clone, Copy, PartialEq, Eq, Structural)]
pub struct MetricsSnapshot {
    pub sessions_established: u64,
    pub sessions_failed: u64,
    pub sessions_active: u64,
    pub messages_rx_open: u64,
    pub messages_rx_keepalive: u64,
    pub messages_rx_update: u64,
    pub messages_rx_notification: u64,
    pub messages_tx_open: u64,
    pub messages_tx_keepalive: u64,
    pub messages_tx_update: u64,
    pub messages_tx_notification: u64,
    pub routes_received: u64,
    pub routes_withdrawn: u64,
    pub routes_loc_rib: u64,
    pub routes_advertised: u64,
    pub hold_timer_expirations: u64,
    pub parse_errors: u64,
    pub fsm_errors: u64,
}

impl Metrics {
    /// All counters at zero.
    pub fn new() -> (r: Self) {
        Metrics {
            sessions_established: AtomicU64::new(0),
            sessions_failed: AtomicU64::new(0),
            sessions_active: AtomicU64::new(0),
            messages_rx_open: AtomicU64::new(0),
            messages_rx_keepalive: AtomicU64::new(0),
            messages_rx_update: AtomicU64::new(0),
            messages_rx_notification: AtomicU64::new(0),
            messages_tx_open: AtomicU64::new(0),
            messages_tx_keepalive: AtomicU64::new(0),
            messages_tx_update: AtomicU64::new(0),
            messages_tx_notification: AtomicU64::new(0),
            routes_received: AtomicU64::new(0),
            routes_withdrawn: AtomicU64::new(0),
            routes_loc_rib: AtomicU64::new(0),
            routes_advertised: AtomicU64::new(0),
            hold_timer_expirations: AtomicU64::new(0),
            parse_errors: AtomicU64::new(0),
            fsm_errors: AtomicU64::new(0),
        }
    }

    /// A handle that sessions can share.
    pub fn shared() -> (r: Arc<Self>) {
        Arc::new(Self::new())
    }

    /// Adds one to `counter` (wrapping at the largest `u64`).
    pub fn inc(&self, counter: &AtomicU64) {
        counter.fetch_add(1, Ordering::Relaxed);
    }

    /// Sets `counter` to `value`.
    pub fn set(&self, counter: &AtomicU64, value: u64) {
        counter.store(value, Ordering::Relaxed);
    }

    /// The current value of `counter`. Nothing is stated of it: other
    /// sessions may change it at any time.
    pub fn get(&self, counter: &AtomicU64) -> (r: u64) {
        counter.load(Ordering::Relaxed)
    }

    /// Reads every counter once.
    pub fn snapshot(&self) -> (r: MetricsSnapshot) {
        MetricsSnapshot {
            sessions_established: self.get(&self.sessions_established),
            sessions_failed: self.get(&self.sessions_failed),
            sessions_active: self.get(&self.sessions_active),
            messages_rx_open: self.get(&self.messages_rx_open),
            messages_rx_keepalive: self.get(&self.messages_rx_keepalive),
            messages_rx_update: self.get(&self.messages_rx_update),
            messages_rx_notification: self.get(&self.messages_rx_notification),
            messages_tx_open: self.get(&self.messages_tx_open),
            messages_tx_keepalive: self.get(&self.messages_tx_keepalive),
            messages_tx_update: self.get(&self.messages_tx_update),
            messages_tx_notification: self.get(&self.messages_tx_notification),
            routes_received: self.get(&self.routes_received),
            routes_withdrawn: self.get(&self.routes_withdrawn),
            routes_loc_rib: self.get(&self.routes_loc_rib),
            routes_advertised: self.get(&self.routes_advertised),
            hold_timer_expirations: self.get(&self.hold_timer_expirations),
            parse_errors: self.get(&self.parse_errors),
            fsm_errors: self.get(&self.fsm_errors),
        }
    }

    /// Render metrics in Prometheus exposition format (of the counters as
    /// read during the call).
    pub fn prometheus_text(&self) -> (r: String)
        ensures
            exists|s: MetricsSnapshot| r@ == spec_prometheus_text(s),
    {
        let s = self.snapshot();
        render_prometheus(&s)
    }

    /// Render metrics as human-readable text (of the counters as read during
    /// the call).
    pub fn text_summary(&self) -> (r: String)
        ensures
            exists|s: MetricsSnapshot| r@ == spec_text_summary(s),
    {
        let s = self.snapshot();
        render_text_summary(&s)
    }
}

impl Default for Metrics {
    fn default() -> (r: Self) {
        Self::new()
    }
}

/// One Prometheus metric: its HELP and TYPE lines, then its sample.
pub open spec fn metric_block(name: Seq<char>, help: Seq<char>, kind: Seq<char>, v: u64) -> Seq<char> {
    "# HELP "@ + name + " "@ + help + "\n# TYPE "@ + name + " "@ + kind + "\n"@ + name + " "@
        + spec_decimal(v as nat) + "\n"@
}

/// Appends one Prometheus metric.
fn push_metric(out: &mut String, name: &str, help: &str, kind: &str, v: u64)
    ensures
        final(out)@ == old(out)@ + metric_block(name@, help@, kind@, v),
{
    push_str(out, "# HELP ");
    push_str(out, name);
    push_str(out, " ");
    push_str(out, help);
    push_str(out, "\n# TYPE ");
    push_str(out, name);
    push_str(out, " ");
    push_str(out, kind);
    push_str(out, "\n");
    push_str(out, name);
    push_str(out, " ");
    push_decimal(out, v);
    push_str(out, "\n");
    assert(final(out)@ =~= old(out)@ + metric_block(name@, help@, kind@, v));
}

/// The Prometheus exposition of a snapshot: one gauge or counter per value.
pub open spec fn spec_prometheus_text(s: MetricsSnapshot) -> Seq<char> {
    metric_block("bgp_sessions_active"@, "Currently active BGP sessions"@, "gauge"@, s.sessions_active)
        + metric_block("bgp_sessions_established_total"@, "Total BGP sessions ever established"@, "counter"@, s.sessions_established)
        + metric_block("bgp_sessions_failed_total"@, "Total BGP session failures"@, "counter"@, s.sessions_failed)
        + metric_block("bgp_messages_received_total{type=\"open\"}"@, "OPEN messages received"@, "counter"@, s.messages_rx_open)
        + metric_block("bgp_messages_received_total{type=\"keepalive\"}"@, "KEEPALIVE messages received"@, "counter"@, s.messages_rx_keepalive)
        + metric_block("bgp_messages_received_total{type=\"update\"}"@, "UPDATE messages received"@, "counter"@, s.messages_rx_update)
        + metric_block("bgp_messages_received_total{type=\"notification\"}"@, "NOTIFICATION messages received"@, "counter"@, s.messages_rx_notification)
        + metric_block("bgp_messages_sent_total{type=\"open\"}"@, "OPEN messages sent"@, "counter"@, s.messages_tx_open)
        + metric_block("bgp_messages_sent_total{type=\"keepalive\"}"@, "KEEPALIVE messages sent"@, "counter"@, s.messages_tx_keepalive)
        + metric_block("bgp_messages_sent_total{type=\"update\"}"@, "UPDATE messages sent"@, "counter"@, s.messages_tx_update)
        + metric_block("bgp_messages_sent_total{type=\"notification\"}"@, "NOTIFICATION messages sent"@, "counter"@, s.messages_tx_notification)
        + metric_block("bgp_routes_received_total"@, "Total routes received (NLRI)"@, "counter"@, s.routes_received)
        + metric_block("bgp_routes_withdrawn_total"@, "Total routes withdrawn"@, "counter"@, s.routes_withdrawn)
        + metric_block("bgp_routes_loc_rib"@, "Current routes in Loc-RIB"@, "gauge"@, s.routes_loc_rib)
        + metric_block("bgp_routes_advertised_total"@, "Total routes advertised to peers"@, "counter"@, s.routes_advertised)
        + metric_block("bgp_hold_timer_expirations_total"@, "Hold timer expiration events"@, "counter"@, s.hold_timer_expirations)
        + metric_block("bgp_parse_errors_total"@, "BGP message parse errors"@, "counter"@, s.parse_errors)
        + metric_block("bgp_fsm_errors_total"@, "BGP FSM state errors"@, "counter"@, s.fsm_errors)
}

/// Renders a snapshot in Prometheus exposition format.
pub fn render_prometheus(s: &MetricsSnapshot) -> (r: String)
    ensures
        r@ == spec_prometheus_text(*s),
{
    let mut out = String::new();
    push_metric(&mut out, "bgp_sessions_active", "Currently active BGP sessions", "gauge", s.sessions_active);
    assert(out@ =~= metric_block("bgp_sessions_active"@, "Currently active BGP sessions"@, "gauge"@, s.sessions_active));
    push_metric(&mut out, "bgp_sessions_established_total", "Total BGP sessions ever established", "counter", s.sessions_established);
    push_metric(&mut out, "bgp_sessions_failed_total", "Total BGP session failures", "counter", s.sessions_failed);
    push_metric(&mut out, "bgp_messages_received_total{type=\"open\"}", "OPEN messages received", "counter", s.messages_rx_open);
    push_metric(&mut out, "bgp_messages_received_total{type=\"keepalive\"}", "KEEPALIVE messages received", "counter", s.messages_rx_keepalive);
    push_metric(&mut out, "bgp_messages_received_total{type=\"update\"}", "UPDATE messages received", "counter", s.messages_rx_update);
    push_metric(&mut out, "bgp_messages_received_total{type=\"notification\"}", "NOTIFICATION messages received", "counter", s.messages_rx_notification);
    push_metric(&mut out, "bgp_messages_sent_total{type=\"open\"}", "OPEN messages sent", "counter", s.messages_tx_open);
    push_metric(&mut out, "bgp_messages_sent_total{type=\"keepalive\"}", "KEEPALIVE messages sent", "counter", s.messages_tx_keepalive);
    push_metric(&mut out, "bgp_messages_sent_total{type=\"update\"}", "UPDATE messages sent", "counter", s.messages_tx_update);
    push_metric(&mut out, "bgp_messages_sent_total{type=\"notification\"}", "NOTIFICATION messages sent", "counter", s.messages_tx_notification);
    push_metric(&mut out, "bgp_routes_received_total", "Total routes received (NLRI)", "counter", s.routes_received);
    push_metric(&mut out, "bgp_routes_withdrawn_total", "Total routes withdrawn", "counter", s.routes_withdrawn);
    push_metric(&mut out, "bgp_routes_loc_rib", "Current routes in Loc-RIB", "gauge", s.routes_loc_rib);
    push_metric(&mut out, "bgp_routes_advertised_total", "Total routes advertised to peers", "counter", s.routes_advertised);
    push_metric(&mut out, "bgp_hold_timer_expirations_total", "Hold timer expiration events", "counter", s.hold_timer_expirations);
    push_metric(&mut out, "bgp_parse_errors_total", "BGP message parse errors", "counter", s.parse_errors);
    push_metric(&mut out, "bgp_fsm_errors_total", "BGP FSM state errors", "counter", s.fsm_errors);
    out
}

/// The plain-text report of a snapshot.
pub open spec fn spec_text_summary(s: MetricsSnapshot) -> Seq<char> {
    "PathForge BGP Metrics\n=====================\nSessions:\nactive:      "@ + spec_decimal(s.sessions_active as nat)
        + "\nestablished: "@ + spec_decimal(s.sessions_established as nat)
        + " (total)\nfailed:      "@ + spec_decimal(s.sessions_failed as nat)
        + " (total)\nMessages received:\nOPEN:         "@ + spec_decimal(s.messages_rx_open as nat)
        + "\nKEEPALIVE:    "@ + spec_decimal(s.messages_rx_keepalive as nat)
        + "\nUPDATE:       "@ + spec_decimal(s.messages_rx_update as nat)
        + "\nNOTIFICATION: "@ + spec_decimal(s.messages_rx_notification as nat)
        + "\nMessages sent:\nOPEN:         "@ + spec_decimal(s.messages_tx_open as nat)
        + "\nKEEPALIVE:    "@ + spec_decimal(s.messages_tx_keepalive as nat)
        + "\nUPDATE:       "@ + spec_decimal(s.messages_tx_update as nat)
        + "\nNOTIFICATION: "@ + spec_decimal(s.messages_tx_notification as nat)
        + "\nRoutes:\nLoc-RIB:    "@ + spec_decimal(s.routes_loc_rib as nat)
        + "\nreceived:   "@ + spec_decimal(s.routes_received as nat)
        + " (total)\nwithdrawn:  "@ + spec_decimal(s.routes_withdrawn as nat)
        + " (total)\nadvertised: "@ + spec_decimal(s.routes_advertised as nat)
        + " (total)\nErrors:\nhold timer:  "@ + spec_decimal(s.hold_timer_expirations as nat)
        + "\nparse:       "@ + spec_decimal(s.parse_errors as nat)
        + "\nfsm:         "@ + spec_decimal(s.fsm_errors as nat)
        + "\n"@
}

/// Renders a snapshot as the plain-text report.
pub fn render_text_summary(s: &MetricsSnapshot) -> (r: String)
    ensures
        r@ == spec_text_summary(*s),
{
    let mut out = String::new();
    push_str(&mut out, "PathForge BGP Metrics\n=====================\nSessions:\nactive:      ");
    assert(out@ =~= "PathForge BGP Metrics\n=====================\nSessions:\nactive:      "@);
    push_decimal(&mut out, s.sessions_active);
    push_str(&mut out, "\nestablished: ");
    push_decimal(&mut out, s.sessions_established);
    push_str(&mut out, " (total)\nfailed:      ");
    push_decimal(&mut out, s.sessions_failed);
    push_str(&mut out, " (total)\nMessages received:\nOPEN:         ");
    push_decimal(&mut out, s.messages_rx_open);
    push_str(&mut out, "\nKEEPALIVE:    ");
    push_decimal(&mut out, s.messages_rx_keepalive);
    push_str(&mut out, "\nUPDATE:       ");
    push_decimal(&mut out, s.messages_rx_update);
    push_str(&mut out, "\nNOTIFICATION: ");
    push_decimal(&mut out, s.messages_rx_notification);
    push_str(&mut out, "\nMessages sent:\nOPEN:         ");
    push_decimal(&mut out, s.messages_tx_open);
    push_str(&mut out, "\nKEEPALIVE:    ");
    push_decimal(&mut out, s.messages_tx_keepalive);
    push_str(&mut out, "\nUPDATE:       ");
    push_decimal(&mut out, s.messages_tx_update);
    push_str(&mut out, "\nNOTIFICATION: ");
    push_decimal(&mut out, s.messages_tx_notification);
    push_str(&mut out, "\nRoutes:\nLoc-RIB:    ");
    push_decimal(&mut out, s.routes_loc_rib);
    push_str(&mut out, "\nreceived:   ");
    push_decimal(&mut out, s.routes_received);
    push_str(&mut out, " (total)\nwithdrawn:  ");
    push_decimal(&mut out, s.routes_withdrawn);
    push_str(&mut out, " (total)\nadvertised: ");
    push_decimal(&mut out, s.routes_advertised);
    push_str(&mut out, " (total)\nErrors:\nhold timer:  ");
    push_decimal(&mut out, s.hold_timer_expirations);
    push_str(&mut out, "\nparse:       ");
    push_decimal(&mut out, s.parse_errors);
    push_str(&mut out, "\nfsm:         ");
    push_decimal(&mut out, s.fsm_errors);
    push_str(&mut out, "\n");
    out
}

} // verus!
