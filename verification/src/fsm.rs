//! The BGP finite state machine (RFC 4271 section 8).

use vstd::prelude::*;

verus! {

/// BGP Finite State Machine states as defined in RFC 4271 Section 8.
#[derive(Debug, Clone, Copy, PartialEq, Eq, Hash, Structural)]
pub enum BgpState {
    /// The BGP peer is not active. Waiting for a start event.
    Idle,
    /// Waiting for the TCP connection to be established.
    Connect,
    /// TCP connection failed; listening for incoming connections.
    Active,
    /// TCP connection established; OPEN message sent, waiting for peer's OPEN.
    OpenSent,
    /// OPEN received and validated; KEEPALIVE sent, waiting for peer's KEEPALIVE.
    OpenConfirm,
    /// BGP session fully established; exchanging UPDATE messages.
    Established,
}

/// The state's name.
pub open spec fn state_name(s: BgpState) -> Seq<char> {
    match s {
        BgpState::Idle => "Idle"@,
        BgpState::Connect => "Connect"@,
        BgpState::Active => "Active"@,
        BgpState::OpenSent => "OpenSent"@,
        BgpState::OpenConfirm => "OpenConfirm"@,
        BgpState::Established => "Established"@,
    }
}

impl BgpState {
    /// The state's name, as the FSM's diagrams write it.
    pub fn to_string(&self) -> (r: String)
        ensures
            r@ == state_name(*self),
    {
        let s = match self {
            BgpState::Idle => "Idle",
            BgpState::Connect => "Connect",
            BgpState::Active => "Active",
            BgpState::OpenSent => "OpenSent",
            BgpState::OpenConfirm => "OpenConfirm",
            BgpState::Established => "Established",
        };
        String::from_str(s)
    }
}

/// BGP FSM events as defined in RFC 4271 Section 8.1.
#[derive(Debug, Clone, Copy, PartialEq, Eq, Structural)]
pub enum BgpEvent {
    /// Administrative start (operator brings up the peer).
    ManualStart,
    /// Administrative stop (operator brings down the peer).
    ManualStop,
    /// TCP connection successfully established.
    TcpConnectionConfirmed,
    /// TCP connection failed.
    TcpConnectionFail,
    /// Valid BGP OPEN message received.
    BgpOpen,
    /// KEEPALIVE message received.
    KeepAliveMsg,
    /// UPDATE message received.
    UpdateMsg,
    /// NOTIFICATION message received.
    NotifMsg,
    /// Hold timer expired.
    HoldTimerExpired,
    /// Keepalive timer expired (time to send a KEEPALIVE).
    KeepaliveTimerExpired,
}

/// The state after `event` in `state`; events with no transition leave the
/// state as it is.
pub open spec fn spec_transition(state: BgpState, event: BgpEvent) -> BgpState {
    match (state, event) {
        (BgpState::Idle, BgpEvent::ManualStart) => BgpState::Connect,
        (BgpState::Connect, BgpEvent::TcpConnectionConfirmed) => BgpState::OpenSent,
        (BgpState::Connect, BgpEvent::TcpConnectionFail) => BgpState::Active,
        (BgpState::Active, BgpEvent::TcpConnectionConfirmed) => BgpState::OpenSent,
        (BgpState::OpenSent, BgpEvent::BgpOpen) => BgpState::OpenConfirm,
        (BgpState::OpenConfirm, BgpEvent::KeepAliveMsg) => BgpState::Established,
        (BgpState::Established, BgpEvent::NotifMsg) => BgpState::Idle,
        (BgpState::Established, BgpEvent::TcpConnectionFail) => BgpState::Idle,
        (_, BgpEvent::ManualStop) => BgpState::Idle,
        (_, BgpEvent::HoldTimerExpired) => BgpState::Idle,
        _ => state,
    }
}

/// The state after `event` in `state`.
pub fn next_state(state: BgpState, event: BgpEvent) -> (r: BgpState)
    ensures
        r == spec_transition(state, event),
{
    match (state, event) {
        (BgpState::Idle, BgpEvent::ManualStart) => BgpState::Connect,
        (BgpState::Connect, BgpEvent::TcpConnectionConfirmed) => BgpState::OpenSent,
        (BgpState::Connect, BgpEvent::TcpConnectionFail) => BgpState::Active,
        (BgpState::Active, BgpEvent::TcpConnectionConfirmed) => BgpState::OpenSent,
        (BgpState::OpenSent, BgpEvent::BgpOpen) => BgpState::OpenConfirm,
        (BgpState::OpenConfirm, BgpEvent::KeepAliveMsg) => BgpState::Established,
        (BgpState::Established, BgpEvent::NotifMsg) => BgpState::Idle,
        (BgpState::Established, BgpEvent::TcpConnectionFail) => BgpState::Idle,
        (_, BgpEvent::ManualStop) => BgpState::Idle,
        (_, BgpEvent::HoldTimerExpired) => BgpState::Idle,
        _ => state,
    }
}

/// Laws of the FSM: a manual stop or an expired hold timer always returns the
/// session to Idle; a session becomes Established only from OpenConfirm on a
/// KEEPALIVE; it leaves Established only for Idle, on a NOTIFICATION, a TCP
/// failure, a manual stop or an expired hold timer; and an UPDATE or a
/// keepalive-timer event never changes the state.
pub proof fn lemma_fsm_laws(state: BgpState, event: BgpEvent)
    ensures
        event == BgpEvent::ManualStop ==> spec_transition(state, event) == BgpState::Idle,
        event == BgpEvent::HoldTimerExpired ==> spec_transition(state, event) == BgpState::Idle,
        spec_transition(state, event) == BgpState::Established && state != BgpState::Established
            ==> state == BgpState::OpenConfirm && event == BgpEvent::KeepAliveMsg,
        state == BgpState::Established && spec_transition(state, event) != BgpState::Established
            ==> spec_transition(state, event) == BgpState::Idle && (event == BgpEvent::NotifMsg
            || event == BgpEvent::TcpConnectionFail || event == BgpEvent::ManualStop || event
            == BgpEvent::HoldTimerExpired),
        event == BgpEvent::UpdateMsg || event == BgpEvent::KeepaliveTimerExpired ==> spec_transition(
            state,
            event,
        ) == state,
{
}

/// Law of the FSM: an Established session goes down to Idle when its TCP
/// connection fails or a NOTIFICATION arrives, and a TCP failure never leaves
/// a session in (or brings it to) Established, whatever its state.
pub proof fn lemma_session_goes_down(state: BgpState)
    ensures
        spec_transition(state, BgpEvent::TcpConnectionFail) != BgpState::Established,
        state == BgpState::Established ==> spec_transition(state, BgpEvent::TcpConnectionFail)
            == BgpState::Idle,
        state == BgpState::Established ==> spec_transition(state, BgpEvent::NotifMsg) == BgpState::Idle,
{
}

/// Law of the FSM: the handshake moves forward one step per event (Idle to
/// Connect on a start, Connect or Active to OpenSent once TCP is up, OpenSent
/// to OpenConfirm on an OPEN, OpenConfirm to Established on a KEEPALIVE), a
/// failed connect attempt falls back to Active, and an Idle session waits for
/// a start: no other event moves it.
pub proof fn lemma_handshake_steps(state: BgpState, event: BgpEvent)
    ensures
        state == BgpState::Idle && event == BgpEvent::ManualStart ==> spec_transition(state, event)
            == BgpState::Connect,
        (state == BgpState::Connect || state == BgpState::Active) && event
            == BgpEvent::TcpConnectionConfirmed ==> spec_transition(state, event) == BgpState::OpenSent,
        state == BgpState::OpenSent && event == BgpEvent::BgpOpen ==> spec_transition(state, event)
            == BgpState::OpenConfirm,
        state == BgpState::OpenConfirm && event == BgpEvent::KeepAliveMsg ==> spec_transition(
            state,
            event,
        ) == BgpState::Established,
        state == BgpState::Connect && event == BgpEvent::TcpConnectionFail ==> spec_transition(
            state,
            event,
        ) == BgpState::Active,
        state == BgpState::Idle && event != BgpEvent::ManualStart ==> spec_transition(state, event)
            == BgpState::Idle,
{
}

} // verus!
