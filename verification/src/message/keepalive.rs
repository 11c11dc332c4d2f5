//! BGP KEEPALIVE message (RFC 4271 §4.4): a header with no body.

use super::{header_bytes, push_header, Header, MessageType, HEADER_LEN};
use crate::buffer::{bytes_mut_contents, bytes_mut_from_slice};
use bytes::BytesMut;
use vstd::prelude::*;

verus! {

/// BGP KEEPALIVE message: a 19-byte header and nothing else.
#[derive(Debug, Clone, Copy, Default)]
pub struct KeepaliveMessage;

/// The wire form of a KEEPALIVE.
pub open spec fn keepalive_bytes() -> Seq<u8> {
    header_bytes(Header { length: 19, msg_type: MessageType::Keepalive })
}

impl KeepaliveMessage {
    /// Serialize KEEPALIVE (header only, no body).
    pub fn serialize(&self) -> (r: BytesMut)
        ensures
            bytes_mut_contents(r) == keepalive_bytes(),
    {
        let hdr = Header::new(MessageType::Keepalive, 0);
        let mut out: Vec<u8> = Vec::new();
        push_header(&mut out, &hdr);
        bytes_mut_from_slice(out.as_slice())
    }
}

} // verus!
