//! BGP message framing (RFC 4271 §4.1): the 19-byte header and whole messages.

pub mod keepalive;
pub mod notification;
pub mod open;
pub mod route_refresh;
pub mod update;

use crate::buffer::{bytes_mut_advance, bytes_mut_as_slice, bytes_mut_contents, bytes_mut_extend};
use crate::wire::{be_value, lemma_u16_roundtrip, push_u16, read_u16, u16_bytes};
use bytes::BytesMut;
use vstd::prelude::*;

verus! {

/// BGP message type codes (RFC 4271 §4.1).
#[derive(Debug, Clone, Copy, PartialEq, Eq, Structural)]
pub enum MessageType {
    Open,
    Update,
    Notification,
    Keepalive,
    RouteRefresh,
}

/// The type that a type code names, if any.
pub open spec fn spec_message_type(v: u8) -> Option<MessageType> {
    if v == 1 {
        Some(MessageType::Open)
    } else if v == 2 {
        Some(MessageType::Update)
    } else if v == 3 {
        Some(MessageType::Notification)
    } else if v == 4 {
        Some(MessageType::Keepalive)
    } else if v == 5 {
        Some(MessageType::RouteRefresh)
    } else {
        None
    }
}

/// The wire code of a message type.
pub open spec fn spec_message_type_code(t: MessageType) -> u8 {
    match t {
        MessageType::Open => 1,
        MessageType::Update => 2,
        MessageType::Notification => 3,
        MessageType::Keepalive => 4,
        MessageType::RouteRefresh => 5,
    }
}

impl MessageType {
    /// The wire code of this message type.
    pub fn code(&self) -> (r: u8)
        ensures
            r == spec_message_type_code(*self),
    {
        match self {
            MessageType::Open => 1,
            MessageType::Update => 2,
            MessageType::Notification => 3,
            MessageType::Keepalive => 4,
            MessageType::RouteRefresh => 5,
        }
    }

    /// The message type with wire code `v`; an unknown code is an error.
    pub fn from_u8(v: u8) -> (r: Result<MessageType, MessageError>)
        ensures
            match spec_message_type(v) {
                Some(t) => r == Ok::<MessageType, MessageError>(t),
                None => r matches Err(MessageError::UnknownType(x)) && x == v,
            },
    {
        if v == 1 {
            Ok(MessageType::Open)
        } else if v == 2 {
            Ok(MessageType::Update)
        } else if v == 3 {
            Ok(MessageType::Notification)
        } else if v == 4 {
            Ok(MessageType::Keepalive)
        } else if v == 5 {
            Ok(MessageType::RouteRefresh)
        } else {
            Err(MessageError::UnknownType(v))
        }
    }
}

/// BGP message errors.
#[derive(Debug)]
pub enum MessageError {
    UnknownType(u8),
    TooShort { expected: usize, got: usize },
    InvalidMarker,
    InvalidLength(u16),
    Parse(String),
}

/// A message error with its text as a sequence of characters.
pub enum MessageErrorView {
    UnknownType(u8),
    TooShort { expected: usize, got: usize },
    InvalidMarker,
    InvalidLength(u16),
    Parse(Seq<char>),
}

impl View for MessageError {
    type V = MessageErrorView;

    open spec fn view(&self) -> MessageErrorView {
        match self {
            MessageError::UnknownType(v) => MessageErrorView::UnknownType(*v),
            MessageError::TooShort { expected, got } => MessageErrorView::TooShort {
                expected: *expected,
                got: *got,
            },
            MessageError::InvalidMarker => MessageErrorView::InvalidMarker,
            MessageError::InvalidLength(l) => MessageErrorView::InvalidLength(*l),
            MessageError::Parse(s) => MessageErrorView::Parse(s@),
        }
    }
}

/// A result with both sides taken by their views.
pub open spec fn rview<T: View, E: View>(r: Result<T, E>) -> Result<T::V, E::V> {
    match r {
        Ok(t) => Ok(t@),
        Err(e) => Err(e@),
    }
}

/// The error for input that ends early.
pub open spec fn too_short(expected: nat, got: nat) -> MessageErrorView {
    MessageErrorView::TooShort { expected: expected as usize, got: got as usize }
}

/// BGP message header: 16-byte marker, 2-byte length, 1-byte type (RFC 4271 §4.1).
#[derive(Debug, Clone, Copy, PartialEq, Eq, Structural)]
pub struct Header {
    pub length: u16,
    pub msg_type: MessageType,
}

impl View for Header {
    type V = Header;

    open spec fn view(&self) -> Header {
        *self
    }
}

pub const HEADER_LEN: usize = 19;

pub const MAX_MESSAGE_LEN: usize = 4096;

/// The all-ones marker that opens every message.
pub open spec fn marker_bytes() -> Seq<u8> {
    Seq::new(16, |i: int| 0xFFu8)
}

/// The wire form of a header.
pub open spec fn header_bytes(h: Header) -> Seq<u8> {
    marker_bytes() + u16_bytes(h.length) + seq![spec_message_type_code(h.msg_type)]
}

/// What a header parse gives for the bytes `s` (only the first 19 are read).
pub open spec fn spec_parse_header(s: Seq<u8>) -> Result<Header, MessageErrorView> {
    if s.len() < 19 {
        Err(too_short(19, s.len()))
    } else if s.subrange(0, 16) != marker_bytes() {
        Err(MessageErrorView::InvalidMarker)
    } else {
        let length = be_value(s.subrange(16, 18));
        if length < 19 || length > 4096 {
            Err(MessageErrorView::InvalidLength(length as u16))
        } else {
            match spec_message_type(s[18]) {
                Some(t) => Ok(Header { length: length as u16, msg_type: t }),
                None => Err(MessageErrorView::UnknownType(s[18])),
            }
        }
    }
}

/// How many bytes a header parse that gave `r` has consumed: none when the
/// buffer was too short, the marker after a bad marker, the marker and length
/// after a bad length, the whole header otherwise.
pub open spec fn header_consumed(r: Result<Header, MessageErrorView>) -> int {
    match r {
        Err(MessageErrorView::TooShort { .. }) => 0,
        Err(MessageErrorView::InvalidMarker) => 16,
        Err(MessageErrorView::InvalidLength(_)) => 18,
        _ => 19,
    }
}

/// A header is one that a parse accepts: its length lies in `19..=4096`.
pub open spec fn header_valid(h: Header) -> bool {
    19 <= h.length <= 4096
}

/// The wire form of a header followed by `body`.
pub open spec fn message_bytes(t: MessageType, body: Seq<u8>) -> Seq<u8> {
    header_bytes(Header { length: ((19 + body.len()) % 65536) as u16, msg_type: t }) + body
}

pub(crate) fn push_marker(out: &mut Vec<u8>)
    ensures
        final(out)@ == old(out)@ + marker_bytes(),
{
    let mut i: usize = 0;
    while i < 16
        invariant
            i <= 16,
            out@ == old(out)@ + Seq::new(i as nat, |j: int| 0xFFu8),
        decreases 16 - i,
    {
        out.push(0xFF);
        i = i + 1;
        assert(out@ =~= old(out)@ + Seq::new(i as nat, |j: int| 0xFFu8));
    }
}

/// Appends the wire form of a header.
pub(crate) fn push_header(out: &mut Vec<u8>, h: &Header)
    ensures
        final(out)@ == old(out)@ + header_bytes(*h),
{
    push_marker(out);
    push_u16(out, h.length);
    out.push(h.msg_type.code());
    assert(out@ =~= old(out)@ + header_bytes(*h));
}

impl Header {
    /// The header of a message of type `msg_type` whose body has `body_len`
    /// bytes; the length field keeps the low 16 bits of `19 + body_len`.
    pub fn new(msg_type: MessageType, body_len: usize) -> (r: Self)
        requires
            body_len <= usize::MAX - 19,
        ensures
            r.msg_type == msg_type,
            r.length == (19 + body_len) % 65536,
    {
        Header { length: ((HEADER_LEN + body_len) % 65536) as u16, msg_type }
    }

    /// Read a BGP header from the first 19 bytes of `buf`, consuming nothing.
    pub fn read(buf: &[u8]) -> (r: Result<Self, MessageError>)
        ensures
            rview(r) == spec_parse_header(buf@),
    {
        if buf.len() < HEADER_LEN {
            return Err(MessageError::TooShort { expected: HEADER_LEN, got: buf.len() });
        }
        let mut i: usize = 0;
        while i < 16
            invariant
                i <= 16,
                buf@.len() >= 19,
                forall|j: int| 0 <= j < i ==> buf@[j] == 0xFFu8,
            decreases 16 - i,
        {
            if buf[i] != 0xFF {
                proof {
                    assert(buf@.subrange(0, 16)[i as int] != marker_bytes()[i as int]);
                }
                return Err(MessageError::InvalidMarker);
            }
            i = i + 1;
        }
        assert(buf@.subrange(0, 16) =~= marker_bytes());
        let length = read_u16(buf, 16);
        if length < 19 || length > 4096 {
            return Err(MessageError::InvalidLength(length));
        }
        let msg_type = MessageType::from_u8(buf[18])?;
        Ok(Header { length, msg_type })
    }

    /// Parse a BGP header from the front of `buf`, consuming what was read:
    /// the 19 header bytes on success. A buffer shorter than a header is an
    /// error and loses nothing; a bad marker loses the 16 marker bytes, a bad
    /// length the 18 bytes up to it, an unknown type all 19.
    pub fn parse(buf: &mut BytesMut) -> (r: Result<Self, MessageError>)
        ensures
            rview(r) == spec_parse_header(bytes_mut_contents(*old(buf))),
            bytes_mut_contents(*final(buf)) == bytes_mut_contents(*old(buf)).skip(
                header_consumed(spec_parse_header(bytes_mut_contents(*old(buf)))),
            ),
            bytes_mut_contents(*old(buf)).len() <= usize::MAX,
    {
        let s = bytes_mut_as_slice(buf);
        assert(s@.len() == s.len());
        let r = Header::read(s);
        let n: usize = match &r {
            Ok(_) => HEADER_LEN,
            Err(MessageError::TooShort { .. }) => 0,
            Err(MessageError::InvalidMarker) => 16,
            Err(MessageError::InvalidLength(_)) => 18,
            Err(_) => HEADER_LEN,
        };
        bytes_mut_advance(buf, n);
        r
    }

    /// Append the wire form of this header to `buf`.
    pub fn serialize(&self, buf: &mut BytesMut)
        ensures
            bytes_mut_contents(*final(buf)) == bytes_mut_contents(*old(buf)) + header_bytes(*self),
    {
        let mut out: Vec<u8> = Vec::new();
        push_header(&mut out, self);
        assert(out@ =~= header_bytes(*self));
        bytes_mut_extend(buf, out.as_slice());
    }
}

/// Decoding the wire form of a header gives the header back, whatever follows it.
pub proof fn lemma_header_roundtrip(h: Header, rest: Seq<u8>)
    requires
        header_valid(h),
    ensures
        spec_parse_header(header_bytes(h) + rest) == Ok::<Header, MessageErrorView>(h),
{
    let s = header_bytes(h) + rest;
    lemma_u16_roundtrip(h.length);
    assert(s.subrange(0, 16) =~= marker_bytes());
    assert(s.subrange(16, 18) =~= u16_bytes(h.length));
    assert(s[18] == spec_message_type_code(h.msg_type));
}

/// A complete BGP message: header and body.
#[derive(Debug, Clone)]
pub struct BgpMessage {
    pub header: Header,
    pub body: Vec<u8>,
}

/// A message with its body as a sequence.
pub struct BgpMessageView {
    pub header: Header,
    pub body: Seq<u8>,
}

impl View for BgpMessage {
    type V = BgpMessageView;

    open spec fn view(&self) -> BgpMessageView {
        BgpMessageView { header: self.header, body: self.body@ }
    }
}

/// Whether `s` starts with a whole message: a valid header and all the bytes
/// its length announces.
pub open spec fn frame_complete(s: Seq<u8>) -> bool {
    s.len() >= 19 && spec_parse_header(s) is Ok && s.len() >= spec_parse_header(s)->Ok_0.length
}

impl BgpMessage {
    /// Read a complete BGP message from the front of `buf`.
    ///
    /// With fewer bytes than a header, or than the header's length announces,
    /// nothing is consumed and the result is `Ok(None)`. A malformed header is
    /// an error and consumes nothing. Otherwise the whole message is consumed.
    pub fn parse(buf: &mut BytesMut) -> (r: Result<Option<Self>, MessageError>)
        ensures
            ({
                let s = bytes_mut_contents(*old(buf));
                if s.len() < 19 {
                    r matches Ok(None) && bytes_mut_contents(*final(buf)) == s
                } else if spec_parse_header(s) is Err {
                    r matches Err(e) && Err::<Header, MessageErrorView>(e@) == spec_parse_header(s)
                        && bytes_mut_contents(*final(buf)) == s
                } else if !frame_complete(s) {
                    r matches Ok(None) && bytes_mut_contents(*final(buf)) == s
                } else {
                    let h = spec_parse_header(s)->Ok_0;
                    r matches Ok(Some(m)) && m.header == h && m.body@ == s.subrange(
                        19,
                        h.length as int,
                    ) && bytes_mut_contents(*final(buf)) == s.skip(h.length as int)
                }
            }),
    {
        let s = bytes_mut_as_slice(buf);
        if s.len() < HEADER_LEN {
            return Ok(None);
        }
        let header = Header::read(s)?;
        let total = header.length as usize;
        if s.len() < total {
            return Ok(None);
        }
        let mut body: Vec<u8> = Vec::new();
        let mut i: usize = HEADER_LEN;
        while i < total
            invariant
                HEADER_LEN <= i <= total,
                total <= s@.len(),
                body@ == s@.subrange(19, i as int),
            decreases total - i,
        {
            body.push(s[i]);
            i = i + 1;
            assert(body@ =~= s@.subrange(19, i as int));
        }
        bytes_mut_advance(buf, total);
        Ok(Some(BgpMessage { header, body }))
    }
}

/// Framing a message and reading it back gives the header and body, and
/// leaves exactly the bytes that followed.
pub proof fn lemma_frame_roundtrip(t: MessageType, body: Seq<u8>, rest: Seq<u8>)
    requires
        19 + body.len() <= 4096,
    ensures
        frame_complete(message_bytes(t, body) + rest),
        spec_parse_header(message_bytes(t, body) + rest) == Ok::<Header, MessageErrorView>(
            Header { length: (19 + body.len() as int) as u16, msg_type: t },
        ),
        (message_bytes(t, body) + rest).subrange(19, 19 + body.len() as int) == body,
        (message_bytes(t, body) + rest).skip(19 + body.len() as int) == rest,
{
    let h = Header { length: (19 + body.len() as int) as u16, msg_type: t };
    let s = message_bytes(t, body) + rest;
    assert(s =~= header_bytes(h) + (body + rest));
    lemma_header_roundtrip(h, body + rest);
    lemma_u16_roundtrip(h.length);
    assert(s.subrange(19, 19 + body.len() as int) =~= body);
    assert(s.skip(19 + body.len() as int) =~= rest);
}

} // verus!
