//! Hold and keepalive timers (RFC 4271 section 10), and the local speaker's
//! settings.

use tokio::time::Instant;
use vstd::prelude::*;

verus! {

#[verifier::external_type_specification]
#[verifier::external_body]
pub struct ExInstant(Instant);

/// `tokio::time::Instant::now`: the current time. Nothing is stated of it:
/// it depends on the clock.
#[verifier::external_body]
fn instant_now() -> (r: Instant) {
    Instant::now()
}

/// `tokio::time::Instant::elapsed`, in whole seconds (`Duration::as_secs`):
/// the time since `start`. Nothing is stated of it: it depends on the clock.
#[verifier::external_body]
fn elapsed_secs(start: &Instant) -> (r: u64) {
    start.elapsed().as_secs()
}

/// Whether a hold timer of `hold_time` seconds has run out after
/// `elapsed_secs` whole seconds (a zero hold time never runs out).
pub fn hold_expired_after(hold_time: u16, elapsed_secs: u64) -> (r: bool)
    ensures
        r == (hold_time > 0 && elapsed_secs >= hold_time),
{
    hold_time > 0 && elapsed_secs >= hold_time as u64
}

/// Whether a keepalive of period `interval` seconds is due after
/// `elapsed_secs` whole seconds (a zero period never is).
pub fn keepalive_due_after(interval: u16, elapsed_secs: u64) -> (r: bool)
    ensures
        r == (interval > 0 && elapsed_secs >= interval),
{
    interval > 0 && elapsed_secs >= interval as u64
}

/// BGP timer state.
#[derive(Debug)]
pub struct BgpTimers {
    /// Negotiated hold time in seconds (0 means disabled).
    pub hold_time: u16,
    /// Keepalive interval (hold_time / 3).
    pub keepalive_interval: u16,
    /// When the hold timer was last reset.
    pub hold_timer_start: Option<Instant>,
    /// When the keepalive timer was last reset.
    pub keepalive_timer_start: Option<Instant>,
}

impl BgpTimers {
    /// Timers for a hold time; the keepalive interval is a third of it.
    pub fn new(hold_time: u16) -> (r: Self)
        ensures
            r.hold_time == hold_time,
            r.keepalive_interval == hold_time / 3,
            r.hold_timer_start is None,
            r.keepalive_timer_start is None,
    {
        let keepalive_interval = if hold_time > 0 {
            hold_time / 3
        } else {
            0
        };
        BgpTimers {
            hold_time,
            keepalive_interval,
            hold_timer_start: None,
            keepalive_timer_start: None,
        }
    }

    /// Restarts the hold timer now (when the hold time is not zero).
    pub fn reset_hold_timer(&mut self)
        ensures
            final(self).hold_time == old(self).hold_time,
            final(self).keepalive_interval == old(self).keepalive_interval,
            final(self).keepalive_timer_start == old(self).keepalive_timer_start,
            old(self).hold_time > 0 ==> final(self).hold_timer_start is Some,
            old(self).hold_time == 0 ==> final(self).hold_timer_start == old(self).hold_timer_start,
    {
        if self.hold_time > 0 {
            self.hold_timer_start = Some(instant_now());
        }
    }

    /// Restarts the keepalive timer now (when the interval is not zero).
    pub fn reset_keepalive_timer(&mut self)
        ensures
            final(self).hold_time == old(self).hold_time,
            final(self).keepalive_interval == old(self).keepalive_interval,
            final(self).hold_timer_start == old(self).hold_timer_start,
            old(self).keepalive_interval > 0 ==> final(self).keepalive_timer_start is Some,
            old(self).keepalive_interval == 0 ==> final(self).keepalive_timer_start == old(
                self,
            ).keepalive_timer_start,
    {
        if self.keepalive_interval > 0 {
            self.keepalive_timer_start = Some(instant_now());
        }
    }

    /// Whether the hold timer has run out: never with a zero hold time or
    /// before the timer is started; otherwise once the hold time has passed.
    pub fn hold_timer_expired(&self) -> (r: bool)
        ensures
            self.hold_time == 0 ==> !r,
            self.hold_timer_start is None ==> !r,
    {
        match &self.hold_timer_start {
            Some(s) => hold_expired_after(self.hold_time, elapsed_secs(s)),
            None => false,
        }
    }

    /// Whether a KEEPALIVE is due: never with a zero interval; at once
    /// before the timer is started; otherwise once the interval has passed.
    pub fn keepalive_due(&self) -> (r: bool)
        ensures
            self.keepalive_interval == 0 ==> !r,
            self.keepalive_interval > 0 && self.keepalive_timer_start is None ==> r,
    {
        if self.keepalive_interval == 0 {
            return false;
        }
        match &self.keepalive_timer_start {
            Some(s) => keepalive_due_after(self.keepalive_interval, elapsed_secs(s)),
            None => true,
        }
    }
}

/// Configuration for a local BGP speaker.
#[derive(Debug, Clone, Copy)]
pub struct LocalConfig {
    pub local_as: u32,
    /// Router ID (an IPv4 address as a 32-bit number).
    pub router_id: u32,
    pub hold_time: u16,
}

impl LocalConfig {
    /// A speaker with the default hold time of 90 seconds.
    pub fn new(local_as: u32, router_id: u32) -> (r: Self)
        ensures
            r.local_as == local_as,
            r.router_id == router_id,
            r.hold_time == 90,
    {
        LocalConfig { local_as, router_id, hold_time: 90 }
    }
}

} // verus!
