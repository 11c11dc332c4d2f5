//! BGP NOTIFICATION message (RFC 4271 §4.5).

use super::{
    message_bytes, push_header, too_short, Header, MessageError, MessageErrorView, MessageType,
};
use crate::buffer::{bytes_mut_contents, bytes_mut_from_slice};
use crate::wire::push_slice;
use bytes::BytesMut;
use vstd::prelude::*;

verus! {

/// BGP NOTIFICATION error codes (RFC 4271 §4.5).
#[derive(Debug, Clone, Copy, PartialEq, Eq, Structural)]
pub enum ErrorCode {
    MessageHeaderError,
    OpenMessageError,
    UpdateMessageError,
    HoldTimerExpired,
    FiniteStateMachineError,
    Cease,
}

/// The wire value of an error code.
pub open spec fn spec_error_code(c: ErrorCode) -> u8 {
    match c {
        ErrorCode::MessageHeaderError => 1,
        ErrorCode::OpenMessageError => 2,
        ErrorCode::UpdateMessageError => 3,
        ErrorCode::HoldTimerExpired => 4,
        ErrorCode::FiniteStateMachineError => 5,
        ErrorCode::Cease => 6,
    }
}

impl ErrorCode {
    /// The wire value of this error code.
    pub fn code(&self) -> (r: u8)
        ensures
            r == spec_error_code(*self),
    {
        match self {
            ErrorCode::MessageHeaderError => 1,
            ErrorCode::OpenMessageError => 2,
            ErrorCode::UpdateMessageError => 3,
            ErrorCode::HoldTimerExpired => 4,
            ErrorCode::FiniteStateMachineError => 5,
            ErrorCode::Cease => 6,
        }
    }
}

/// BGP NOTIFICATION message. After sending one, the session is closed.
#[derive(Debug, Clone)]
pub struct NotificationMessage {
    pub error_code: u8,
    pub error_subcode: u8,
    pub data: Vec<u8>,
}

/// A NOTIFICATION with its data as a sequence.
pub struct NotificationView {
    pub error_code: u8,
    pub error_subcode: u8,
    pub data: Seq<u8>,
}

impl View for NotificationMessage {
    type V = NotificationView;

    open spec fn view(&self) -> NotificationView {
        NotificationView {
            error_code: self.error_code,
            error_subcode: self.error_subcode,
            data: self.data@,
        }
    }
}

/// What parsing a NOTIFICATION body gives.
pub open spec fn spec_parse_notification(s: Seq<u8>) -> Result<NotificationView, MessageErrorView> {
    if s.len() < 2 {
        Err(too_short(2, s.len()))
    } else {
        Ok(NotificationView { error_code: s[0], error_subcode: s[1], data: s.skip(2) })
    }
}

/// The body of a NOTIFICATION.
pub open spec fn notification_body(n: NotificationView) -> Seq<u8> {
    seq![n.error_code, n.error_subcode] + n.data
}

impl NotificationMessage {
    pub fn new(error_code: ErrorCode, error_subcode: u8) -> (r: Self)
        ensures
            r.error_code == spec_error_code(error_code),
            r.error_subcode == error_subcode,
            r.data@.len() == 0,
    {
        NotificationMessage { error_code: error_code.code(), error_subcode, data: Vec::new() }
    }

    /// A Cease notification with subcode 0.
    pub fn cease() -> (r: Self)
        ensures
            r.error_code == 6,
            r.error_subcode == 0,
            r.data@.len() == 0,
    {
        Self::new(ErrorCode::Cease, 0)
    }

    /// A Hold Timer Expired notification with subcode 0.
    pub fn hold_timer_expired() -> (r: Self)
        ensures
            r.error_code == 4,
            r.error_subcode == 0,
            r.data@.len() == 0,
    {
        Self::new(ErrorCode::HoldTimerExpired, 0)
    }

    /// Parse a NOTIFICATION body (without header).
    pub fn parse(body: &[u8]) -> (r: Result<Self, MessageError>)
        ensures
            match r {
                Ok(n) => spec_parse_notification(body@) == Ok::<NotificationView, MessageErrorView>(n@),
                Err(e) => spec_parse_notification(body@) == Err::<NotificationView, MessageErrorView>(e@),
            },
    {
        if body.len() < 2 {
            return Err(MessageError::TooShort { expected: 2, got: body.len() });
        }
        let mut data: Vec<u8> = Vec::new();
        let mut i: usize = 2;
        while i < body.len()
            invariant
                2 <= i <= body@.len(),
                data@ == body@.subrange(2, i as int),
            decreases body@.len() - i,
        {
            data.push(body[i]);
            i = i + 1;
            assert(data@ =~= body@.subrange(2, i as int));
        }
        assert(data@ =~= body@.skip(2));
        Ok(NotificationMessage { error_code: body[0], error_subcode: body[1], data })
    }

    /// Serialize a NOTIFICATION (header and body).
    pub fn serialize(&self) -> (r: BytesMut)
        requires
            self.data@.len() + 21 <= usize::MAX,
        ensures
            bytes_mut_contents(r) == message_bytes(MessageType::Notification, notification_body(self@)),
    {
        let body_len = 2 + self.data.len();
        let hdr = Header::new(MessageType::Notification, body_len);
        let mut out: Vec<u8> = Vec::new();
        push_header(&mut out, &hdr);
        out.push(self.error_code);
        out.push(self.error_subcode);
        push_slice(&mut out, self.data.as_slice());
        proof {
            assert(hdr == Header {
                length: ((19 + notification_body(self@).len()) % 65536) as u16,
                msg_type: MessageType::Notification,
            });
            assert(out@ =~= super::header_bytes(hdr) + notification_body(self@));
            assert(message_bytes(MessageType::Notification, notification_body(self@))
                == super::header_bytes(hdr) + notification_body(self@));
        }
        bytes_mut_from_slice(out.as_slice())
    }
}

/// Reading back the body of a NOTIFICATION gives the NOTIFICATION.
pub proof fn lemma_notification_roundtrip(n: NotificationView)
    ensures
        spec_parse_notification(notification_body(n)) == Ok::<NotificationView, MessageErrorView>(n),
{
    let s = notification_body(n);
    assert(s.skip(2) =~= n.data);
}

} // verus!
