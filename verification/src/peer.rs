//! A BGP peer session's decisions: what each received message, each timer
//! check and a disconnect do to the session, and what must happen around it
//! (replies, RIB changes). The connection itself is driven from outside.

use crate::attr::{spec_parse_attrs, AttrError, AttrErrorView, PathAttributes};
use crate::capabilities::{
    cap_bytes,
    caps_bytes,
    caps_view,
    spec_parse_opt_params,
    Capability,
    CapView,
};
use crate::fsm::{next_state, spec_transition, BgpEvent, BgpState};
use crate::message::notification::{spec_parse_notification, NotificationMessage};
use crate::message::open::{params_bytes, params_view, OpenMessage, OptionalParam};
use crate::message::update::{spec_parse_update, Prefix, UpdateMessage};
use crate::message::{BgpMessage, MessageError, MessageErrorView, MessageType};
use crate::net::SocketAddress;
use crate::rib::{
    decision,
    is_admitted_key,
    peer_index,
    peer_routes,
    routes_after_update,
    stale_keys_of,
    swept,
    with_peer_routes,
    withdrawn_keys,
    PrefixKey,
    Rib,
};
use crate::timer::{BgpTimers, LocalConfig};
use vstd::prelude::*;

verus! {

/// What the RIB must do after a message.
#[derive(Debug)]
pub enum RibAction {
    /// Nothing.
    Nothing,
    /// Apply the update from this peer; when it is an End-of-RIB marker
    /// (RFC 4724 4.1: no withdrawals, no attributes, no NLRI), then also drop
    /// the peer's remaining stale routes.
    ApplyUpdate {
        nlri: Vec<Prefix>,
        attrs: PathAttributes,
        withdrawn: Vec<Prefix>,
        end_of_rib: bool,
    },
    /// Remove every route of this peer.
    RemovePeerRoutes,
}

/// Carries out a message's RIB action for `peer`, whose AS is `peer_as`, and
/// hands back the number of prefixes in the Loc-RIB afterwards.
///
/// - An update's advertisements are marked suppressed where `suppressed`
///   says so; after an End-of-RIB marker the peer's remaining stale routes go
///   (RFC 4724 4.1), and their prefixes are decided again.
/// - A failed session takes every route of the peer.
pub fn apply_rib_action(
    rib: &mut Rib,
    peer: SocketAddress,
    peer_as: u32,
    action: &RibAction,
    suppressed: &[bool],
) -> (r: usize)
    requires
        old(rib).wf(),
        match *action {
            RibAction::ApplyUpdate { nlri, .. } => suppressed@.len() == nlri@.len(),
            _ => true,
        },
    ensures
        final(rib).wf(),
        final(rib).validator() == old(rib).validator(),
        r == final(rib).loc().len(),
        match *action {
            RibAction::Nothing => *final(rib) == *old(rib),
            RibAction::RemovePeerRoutes => {
                let a0 = old(rib).adj();
                &&& final(rib).arrivals() == old(rib).arrivals()
                &&& final(rib).adj() == (if peer_index(a0, peer) < 0 {
                    a0
                } else {
                    a0.remove(peer_index(a0, peer))
                })
                &&& peer_index(final(rib).adj(), peer) < 0
                &&& forall|k: PrefixKey| #[trigger] final(rib).loc().get(k) == (if peer_routes(
                    a0,
                    peer,
                ).dom().contains(k) {
                    decision(final(rib).adj(), k)
                } else {
                    old(rib).loc().get(k)
                })
            },
            RibAction::ApplyUpdate { nlri, attrs, withdrawn, end_of_rib } => {
                let a0 = old(rib).adj();
                let v = old(rib).validator();
                let a1 = with_peer_routes(
                    a0,
                    peer,
                    routes_after_update(
                        peer_routes(a0, peer),
                        v,
                        nlri@,
                        suppressed@,
                        attrs@,
                        peer,
                        peer_as,
                        old(rib).arrivals(),
                        withdrawn@,
                    ),
                );
                let stale = stale_keys_of(peer_routes(a1, peer));
                &&& final(rib).arrivals() == (if old(rib).arrivals() < u64::MAX {
                    (old(rib).arrivals() + 1) as u64
                } else {
                    old(rib).arrivals()
                })
                &&& final(rib).adj() == (if end_of_rib {
                    swept(a1, peer, stale)
                } else {
                    a1
                })
                &&& forall|k: PrefixKey| #[trigger] final(rib).loc().get(k) == (if end_of_rib
                    && stale.contains(k) {
                    decision(final(rib).adj(), k)
                } else if is_admitted_key(v, nlri@, suppressed@, peer_as, k) || withdrawn_keys(
                    withdrawn@,
                ).contains(k) {
                    decision(a1, k)
                } else {
                    old(rib).loc().get(k)
                })
            },
        },
{
    match action {
        RibAction::Nothing => {},
        RibAction::ApplyUpdate { nlri, attrs, withdrawn, end_of_rib } => {
            rib.process_update_with_suppression(
                peer,
                peer_as,
                nlri.as_slice(),
                attrs,
                withdrawn.as_slice(),
                suppressed,
            );
            if *end_of_rib {
                let ghost mid = *rib;
                let removed = rib.remove_stale_for_peer(peer);
                proof {
                    assert forall|k: PrefixKey| #[trigger] removed@.contains(k) == stale_keys_of(
                        peer_routes(mid.adj(), peer),
                    ).contains(k) by {
                        assert(removed@.to_set().contains(k) == removed@.contains(k));
                    }
                }
            }
        },
        RibAction::RemovePeerRoutes => {
            let removed = rib.remove_peer(peer);
            proof {
                assert forall|k: PrefixKey| #[trigger] removed@.contains(k) == peer_routes(
                    old(rib).adj(),
                    peer,
                ).dom().contains(k) by {
                    assert(removed@.to_set().contains(k) == removed@.contains(k));
                }
            }
        },
    }
    rib.prefix_count()
}

/// What handling a message asks of the session's driver.
#[derive(Debug)]
pub struct MessageOutcome {
    /// Reply with a KEEPALIVE.
    pub send_keepalive: bool,
    /// The session has just become Established.
    pub established: bool,
    /// The session has failed (the peer sent a NOTIFICATION).
    pub session_failed: bool,
    /// What the RIB must do.
    pub rib: RibAction,
}

/// Why a message could not be handled.
#[derive(Debug)]
pub enum SessionError {
    /// The message body is malformed.
    Message(MessageError),
    /// The UPDATE's path attributes are malformed.
    Attributes(AttrError),
}

/// What a timer check asks of the session's driver.
#[derive(Debug, Clone, Copy, PartialEq, Eq, Structural)]
pub enum TimerAction {
    /// The hold timer ran out: send a Hold Timer Expired NOTIFICATION and
    /// disconnect.
    HoldExpired,
    /// Send a KEEPALIVE.
    SendKeepalive,
    /// Nothing to do yet.
    Wait,
}

/// What a disconnect does to the peer's routes.
#[derive(Debug, Clone, Copy, PartialEq, Eq, Structural)]
pub enum DisconnectAction {
    /// Graceful Restart (RFC 4724): keep the routes, marked stale, and drop
    /// the ones still stale after `restart_time` seconds.
    MarkStale { restart_time: u16 },
    /// Remove the routes at once.
    RemoveRoutes,
}

/// The timer decision: an expired hold timer first; otherwise a KEEPALIVE
/// when one is due on an Established session.
pub open spec fn spec_timer_action(state: BgpState, hold_expired: bool, keepalive_due: bool) -> TimerAction {
    if hold_expired {
        TimerAction::HoldExpired
    } else if state == BgpState::Established && keepalive_due {
        TimerAction::SendKeepalive
    } else {
        TimerAction::Wait
    }
}

/// The timer decision for a session in `state`.
pub fn timer_action(state: BgpState, hold_expired: bool, keepalive_due: bool) -> (r: TimerAction)
    ensures
        r == spec_timer_action(state, hold_expired, keepalive_due),
{
    if hold_expired {
        TimerAction::HoldExpired
    } else if state == BgpState::Established && keepalive_due {
        TimerAction::SendKeepalive
    } else {
        TimerAction::Wait
    }
}

/// The capabilities this speaker announces: 4-octet AS, Route Refresh,
/// IPv4 unicast, Graceful Restart with a 120-second restart time.
pub open spec fn spec_local_capabilities(local_as: u32) -> Seq<CapView> {
    seq![
        CapView::FourOctetAsn { asn: local_as },
        CapView::RouteRefresh,
        CapView::MultiProtocol { afi: 1, safi: 1 },
        CapView::GracefulRestart { restart_time: 120, flags: 0 },
    ]
}

/// The capabilities this speaker announces.
pub fn local_capabilities(local_as: u32) -> (r: Vec<Capability>)
    ensures
        caps_view(r@) == spec_local_capabilities(local_as),
        r@.len() == 4,
{
    let r = vec![
        Capability::FourOctetAsn { asn: local_as },
        Capability::RouteRefresh,
        Capability::MultiProtocol { afi: 1, safi: 1 },
        Capability::GracefulRestart { restart_time: 120, flags: 0 },
    ];
    assert(caps_view(r@) =~= spec_local_capabilities(local_as));
    r
}

/// The restart time of the first Graceful Restart capability, if any.
pub open spec fn gr_restart_time(caps: Seq<CapView>) -> Option<u16>
    decreases caps.len(),
{
    if caps.len() == 0 {
        None
    } else {
        match caps[0] {
            CapView::GracefulRestart { restart_time, .. } => Some(restart_time),
            _ => gr_restart_time(caps.skip(1)),
        }
    }
}

/// Represents a BGP peer session.
#[derive(Debug)]
pub struct Peer {
    pub addr: SocketAddress,
    pub remote_as: u32,
    pub local: LocalConfig,
    pub state: BgpState,
    pub timers: BgpTimers,
    pub negotiated_hold_time: u16,
    /// The peer's BGP identifier (an IPv4 address as a 32-bit number).
    pub peer_router_id: Option<u32>,
    pub peer_capabilities: Vec<Capability>,
}

impl Peer {
    /// A session in Idle, with timers for the local hold time.
    pub fn new(addr: SocketAddress, remote_as: u32, local: LocalConfig) -> (r: Self)
        ensures
            r.addr == addr,
            r.remote_as == remote_as,
            r.local == local,
            r.state == BgpState::Idle,
            r.timers.hold_time == local.hold_time,
            r.timers.keepalive_interval == local.hold_time / 3,
            r.timers.hold_timer_start is None,
            r.timers.keepalive_timer_start is None,
            r.negotiated_hold_time == 90,
            r.peer_router_id is None,
            r.peer_capabilities@.len() == 0,
    {
        let timers = BgpTimers::new(local.hold_time);
        Peer {
            addr,
            remote_as,
            local,
            state: BgpState::Idle,
            timers,
            negotiated_hold_time: 90,
            peer_router_id: None,
            peer_capabilities: Vec::new(),
        }
    }

    /// A session for an accepted TCP connection: started and connected, so
    /// in OpenSent, with the remote AS not yet known (0).
    pub fn incoming(addr: SocketAddress, local: LocalConfig) -> (r: Self)
        ensures
            r.addr == addr,
            r.remote_as == 0,
            r.local == local,
            r.state == BgpState::OpenSent,
            r.timers.hold_time == local.hold_time,
            r.timers.hold_timer_start is None,
            r.timers.keepalive_timer_start is None,
            r.negotiated_hold_time == 90,
            r.peer_router_id is None,
            r.peer_capabilities@.len() == 0,
    {
        let mut p = Peer::new(addr, 0, local);
        p.transition(BgpEvent::ManualStart);
        p.transition(BgpEvent::TcpConnectionConfirmed);
        p
    }

    /// Applies an FSM event.
    pub fn transition(&mut self, event: BgpEvent)
        ensures
            final(self).state == spec_transition(old(self).state, event),
            final(self).addr == old(self).addr,
            final(self).remote_as == old(self).remote_as,
            final(self).local == old(self).local,
            final(self).timers == old(self).timers,
            final(self).negotiated_hold_time == old(self).negotiated_hold_time,
            final(self).peer_router_id == old(self).peer_router_id,
            final(self).peer_capabilities == old(self).peer_capabilities,
    {
        self.state = next_state(self.state, event);
    }

    /// The OPEN this speaker sends: its AS (at most 65535), hold time and
    /// router ID, and one Capabilities parameter (type 2) with the local
    /// capabilities.
    pub fn open_message(&self) -> (r: OpenMessage)
        ensures
            r.version == 4,
            r.my_as == (if self.local.local_as <= 65535 {
                self.local.local_as
            } else {
                65535
            }),
            r.hold_time == self.local.hold_time,
            r.bgp_id == self.local.router_id,
            r.optional_params@.len() == 1,
            r.optional_params@[0].param_type == 2,
            r.optional_params@[0].value@ == caps_bytes(
                spec_local_capabilities(self.local.local_as),
            ),
            r.optional_params@[0].value@.len() <= 255,
    {
        let my_as: u16 = if self.local.local_as <= 65535 {
            self.local.local_as as u16
        } else {
            65535
        };
        let mut open = OpenMessage::new(my_as, self.local.hold_time, self.local.router_id);
        let caps = local_capabilities(self.local.local_as);
        let mut value: Vec<u8> = Vec::new();
        let mut i: usize = 0;
        while i < caps.len()
            invariant
                i <= caps@.len(),
                caps@.len() == 4,
                caps_view(caps@) == spec_local_capabilities(self.local.local_as),
                value@ == caps_bytes(caps_view(caps@).take(i as int)),
                value@.len() <= 6 * i,
            decreases caps@.len() - i,
        {
            let b = caps[i].to_bytes();
            proof {
                let cv = caps_view(caps@);
                crate::wire::lemma_flat_map_take(cv, i as int, |c: CapView| cap_bytes(c));
                assert(cv[i as int] == caps@[i as int]@);
                crate::wire::lemma_be_bytes_len(0, 2);
                lemma_local_cap_len(self.local.local_as, i as int);
            }
            let mut j: usize = 0;
            let ghost v0 = value@;
            while j < b.len()
                invariant
                    j <= b@.len(),
                    value@ == v0 + b@.take(j as int),
                decreases b@.len() - j,
            {
                value.push(b[j]);
                j = j + 1;
                assert(value@ =~= v0 + b@.take(j as int));
            }
            assert(b@.take(j as int) =~= b@);
            assert(value@ =~= caps_bytes(caps_view(caps@).take(i + 1)));
            i = i + 1;
        }
        assert(caps_view(caps@).take(4) =~= caps_view(caps@));
        open.optional_params.push(OptionalParam { param_type: 2, value });
        open
    }

    /// Applies the timer checks: an expired hold timer sends the session to
    /// Idle; a due KEEPALIVE on an Established session restarts the keepalive
    /// timer.
    pub fn poll_timers(&mut self) -> (r: TimerAction)
        ensures
            r is HoldExpired ==> old(self).timers.hold_time > 0 && old(self).timers.hold_timer_start is Some
                && final(self).state == BgpState::Idle,
            r is SendKeepalive ==> old(self).state == BgpState::Established
                && old(self).timers.keepalive_interval > 0 && final(self).state == old(self).state,
            r is Wait ==> final(self).state == old(self).state,
            (old(self).timers.hold_time == 0 || old(self).timers.hold_timer_start is None)
                && old(self).state == BgpState::Established && old(self).timers.keepalive_interval > 0
                && old(self).timers.keepalive_timer_start is None ==> r is SendKeepalive,
            (old(self).timers.hold_time == 0 || old(self).timers.hold_timer_start is None)
                && old(self).state != BgpState::Established ==> r is Wait,
            final(self).timers.hold_time == old(self).timers.hold_time,
            final(self).timers.keepalive_interval == old(self).timers.keepalive_interval,
            final(self).addr == old(self).addr,
            final(self).peer_capabilities == old(self).peer_capabilities,
    {
        let hold = self.timers.hold_timer_expired();
        let due = self.timers.keepalive_due();
        let action = timer_action(self.state, hold, due);
        match action {
            TimerAction::HoldExpired => {
                self.transition(BgpEvent::HoldTimerExpired);
            },
            TimerAction::SendKeepalive => {
                self.timers.reset_keepalive_timer();
            },
            TimerAction::Wait => {},
        }
        action
    }

    /// What a disconnect does to the peer's routes: with a Graceful Restart
    /// capability from the peer and an Established session, keep them stale
    /// for the peer's restart time; otherwise remove them.
    pub fn disconnect_action(&self) -> (r: DisconnectAction)
        ensures
            r == (match gr_restart_time(caps_view(self.peer_capabilities@)) {
                Some(t) => if self.state == BgpState::Established {
                    DisconnectAction::MarkStale { restart_time: t }
                } else {
                    DisconnectAction::RemoveRoutes
                },
                None => DisconnectAction::RemoveRoutes,
            }),
    {
        let ghost cv = caps_view(self.peer_capabilities@);
        assert(cv.skip(0) =~= cv);
        let mut i: usize = 0;
        while i < self.peer_capabilities.len()
            invariant
                i <= self.peer_capabilities@.len(),
                cv == caps_view(self.peer_capabilities@),
                gr_restart_time(cv) == gr_restart_time(cv.skip(i as int)),
            decreases self.peer_capabilities@.len() - i,
        {
            proof {
                assert(cv.skip(i as int)[0] == self.peer_capabilities@[i as int]@);
                assert(cv.skip(i as int).skip(1) =~= cv.skip(i + 1));
            }
            match &self.peer_capabilities[i] {
                Capability::GracefulRestart { restart_time, .. } => {
                    if self.state == BgpState::Established {
                        return DisconnectAction::MarkStale { restart_time: *restart_time };
                    } else {
                        return DisconnectAction::RemoveRoutes;
                    }
                },
                _ => {},
            }
            i = i + 1;
        }
        DisconnectAction::RemoveRoutes
    }

    /// Handles one received message.
    ///
    /// - OPEN: records the peer's identifier, AS and capabilities, takes the
    ///   smaller hold time, restarts the timers, moves on (BgpOpen) and
    ///   answers with a KEEPALIVE.
    /// - KEEPALIVE: restarts the hold timer; in OpenConfirm the session
    ///   becomes Established.
    /// - UPDATE: restarts the hold timer and hands the update to the RIB.
    /// - NOTIFICATION: the session fails and the peer's routes go.
    /// - ROUTE-REFRESH: nothing.
    ///
    /// A malformed body is an error and changes nothing; malformed path
    /// attributes are an error after the hold timer was restarted.
    pub fn handle_message(&mut self, msg: &BgpMessage) -> (r: Result<MessageOutcome, SessionError>)
        ensures
            final(self).addr == old(self).addr,
            final(self).local == old(self).local,
            msg.header.msg_type == MessageType::Open ==> match crate::message::open::spec_parse_open(msg.body@) {
                Err(e) => r matches Err(SessionError::Message(m)) && m@ == e && final(self).state
                    == old(self).state,
                Ok(o) => r is Ok && {
                    let out = r->Ok_0;
                    &&& out.send_keepalive && !out.established && !out.session_failed
                    &&& out.rib is Nothing
                    &&& final(self).peer_router_id == Some(o.bgp_id)
                    &&& final(self).remote_as == o.my_as as u32
                    &&& final(self).negotiated_hold_time == (if old(self).local.hold_time
                        <= o.hold_time {
                        old(self).local.hold_time
                    } else {
                        o.hold_time
                    })
                    &&& final(self).timers.hold_time == final(self).negotiated_hold_time
                    &&& final(self).timers.keepalive_interval == final(self).negotiated_hold_time / 3
                    &&& (final(self).timers.hold_timer_start is Some
                        <==> final(self).negotiated_hold_time > 0)
                    &&& final(self).timers.keepalive_timer_start is None
                    &&& caps_view(final(self).peer_capabilities@) == spec_parse_opt_params(
                        params_bytes(o.optional_params),
                        0,
                    )
                    &&& final(self).state == spec_transition(old(self).state, BgpEvent::BgpOpen)
                },
            },
            msg.header.msg_type == MessageType::Keepalive ==> r is Ok && {
                let out = r->Ok_0;
                &&& !out.send_keepalive && !out.session_failed && out.rib is Nothing
                &&& out.established == (old(self).state == BgpState::OpenConfirm)
                &&& final(self).state == spec_transition(old(self).state, BgpEvent::KeepAliveMsg)
                &&& final(self).timers.hold_time == old(self).timers.hold_time
                &&& (old(self).timers.hold_time > 0 ==> final(self).timers.hold_timer_start is Some)
                &&& (out.established && old(self).timers.keepalive_interval > 0
                    ==> final(self).timers.keepalive_timer_start is Some)
                &&& final(self).peer_capabilities == old(self).peer_capabilities
            },
            msg.header.msg_type == MessageType::Update ==> match spec_parse_update(msg.body@) {
                Err(e) => r matches Err(SessionError::Message(m)) && m@ == e && final(self).state
                    == old(self).state,
                Ok(u) => {
                    &&& final(self).state == old(self).state
                    &&& (old(self).timers.hold_time > 0 ==> final(self).timers.hold_timer_start is Some)
                    &&& match spec_parse_attrs(u.path_attributes) {
                        Err(e) => r matches Err(SessionError::Attributes(a)) && a@ == e,
                        Ok(av) => r is Ok && {
                            let out = r->Ok_0;
                            &&& !out.send_keepalive && !out.established && !out.session_failed
                            &&& out.rib matches RibAction::ApplyUpdate {
                                nlri,
                                attrs,
                                withdrawn,
                                end_of_rib,
                            } && nlri@ == u.nlri && attrs@ == av && withdrawn@ == u.withdrawn_routes
                                && end_of_rib == (u.nlri.len() == 0 && u.withdrawn_routes.len() == 0
                                && u.path_attributes.len() == 0)
                        },
                    }
                },
            },
            msg.header.msg_type == MessageType::Notification ==> match spec_parse_notification(
                msg.body@,
            ) {
                Err(e) => r matches Err(SessionError::Message(m)) && m@ == e && final(self).state
                    == old(self).state,
                Ok(_) => r is Ok && {
                    let out = r->Ok_0;
                    &&& !out.send_keepalive && !out.established && out.session_failed
                    &&& out.rib is RemovePeerRoutes
                    &&& final(self).state == spec_transition(old(self).state, BgpEvent::NotifMsg)
                },
            },
            msg.header.msg_type == MessageType::RouteRefresh ==> r is Ok && {
                let out = r->Ok_0;
                &&& !out.send_keepalive && !out.established && !out.session_failed
                &&& out.rib is Nothing
                &&& final(self).state == old(self).state
            },
            msg.header.msg_type != MessageType::Open || crate::message::open::spec_parse_open(
                msg.body@,
            ) is Err ==> {
                &&& final(self).remote_as == old(self).remote_as
                &&& final(self).peer_router_id == old(self).peer_router_id
                &&& final(self).negotiated_hold_time == old(self).negotiated_hold_time
                &&& final(self).peer_capabilities == old(self).peer_capabilities
                &&& final(self).timers.hold_time == old(self).timers.hold_time
                &&& final(self).timers.keepalive_interval == old(self).timers.keepalive_interval
                &&& (old(self).timers.hold_time == 0 ==> final(self).timers.hold_timer_start
                    == old(self).timers.hold_timer_start)
            },
            msg.header.msg_type == MessageType::Notification || msg.header.msg_type
                == MessageType::RouteRefresh || (msg.header.msg_type == MessageType::Update
                && spec_parse_update(msg.body@) is Err) || (msg.header.msg_type
                == MessageType::Open && crate::message::open::spec_parse_open(msg.body@) is Err)
                ==> final(self).timers == old(self).timers,
            msg.header.msg_type == MessageType::Update ==> final(self).timers.keepalive_timer_start
                == old(self).timers.keepalive_timer_start,
            msg.header.msg_type == MessageType::Keepalive && (old(self).state != BgpState::OpenConfirm
                || old(self).timers.keepalive_interval == 0) ==> final(self).timers.keepalive_timer_start
                == old(self).timers.keepalive_timer_start,
    {
        match msg.header.msg_type {
            MessageType::Open => {
                let open = match OpenMessage::parse(msg.body.as_slice()) {
                    Ok(o) => o,
                    Err(e) => return Err(SessionError::Message(e)),
                };
                self.peer_capabilities = Capability::parse_from_open_params(&open.optional_params);
                self.peer_router_id = Some(open.bgp_id);
                self.remote_as = open.my_as as u32;
                self.negotiated_hold_time = if self.local.hold_time <= open.hold_time {
                    self.local.hold_time
                } else {
                    open.hold_time
                };
                self.timers = BgpTimers::new(self.negotiated_hold_time);
                self.timers.reset_hold_timer();
                self.transition(BgpEvent::BgpOpen);
                Ok(
                    MessageOutcome {
                        send_keepalive: true,
                        established: false,
                        session_failed: false,
                        rib: RibAction::Nothing,
                    },
                )
            },
            MessageType::Keepalive => {
                self.timers.reset_hold_timer();
                let established = self.state == BgpState::OpenConfirm;
                if established {
                    self.transition(BgpEvent::KeepAliveMsg);
                    self.timers.reset_keepalive_timer();
                }
                Ok(
                    MessageOutcome {
                        send_keepalive: false,
                        established,
                        session_failed: false,
                        rib: RibAction::Nothing,
                    },
                )
            },
            MessageType::Update => {
                let update = match UpdateMessage::parse(msg.body.as_slice()) {
                    Ok(u) => u,
                    Err(e) => return Err(SessionError::Message(e)),
                };
                self.timers.reset_hold_timer();
                self.transition(BgpEvent::UpdateMsg);
                let end_of_rib = update.nlri.len() == 0 && update.withdrawn_routes.len() == 0
                    && update.path_attributes.len() == 0;
                let attrs = match PathAttributes::parse(update.path_attributes.as_slice()) {
                    Ok(a) => a,
                    Err(e) => return Err(SessionError::Attributes(e)),
                };
                Ok(
                    MessageOutcome {
                        send_keepalive: false,
                        established: false,
                        session_failed: false,
                        rib: RibAction::ApplyUpdate {
                            nlri: update.nlri,
                            attrs,
                            withdrawn: update.withdrawn_routes,
                            end_of_rib,
                        },
                    },
                )
            },
            MessageType::Notification => {
                match NotificationMessage::parse(msg.body.as_slice()) {
                    Ok(_) => {},
                    Err(e) => return Err(SessionError::Message(e)),
                }
                self.transition(BgpEvent::NotifMsg);
                Ok(
                    MessageOutcome {
                        send_keepalive: false,
                        established: false,
                        session_failed: true,
                        rib: RibAction::RemovePeerRoutes,
                    },
                )
            },
            MessageType::RouteRefresh => {
                Ok(
                    MessageOutcome {
                        send_keepalive: false,
                        established: false,
                        session_failed: false,
                        rib: RibAction::Nothing,
                    },
                )
            },
        }
    }
}

/// Each local capability's wire form takes at most six octets.
proof fn lemma_local_cap_len(local_as: u32, i: int)
    requires
        0 <= i < 4,
    ensures
        cap_bytes(spec_local_capabilities(local_as)[i]).len() <= 6,
{
    crate::wire::lemma_be_bytes_len(0, 2);
    crate::wire::lemma_be_bytes_len(local_as as nat, 4);
    crate::wire::lemma_be_bytes_len(1, 2);
    crate::wire::lemma_be_bytes_len(crate::capabilities::gr_word(120, 0) as nat, 2);
}

} // verus!
