//! BGP ROUTE-REFRESH message (RFC 2918).

use super::marker_bytes;
use super::push_marker;
use crate::buffer::{bytes_mut_contents, bytes_mut_from_slice};
use crate::wire::{be_value, lemma_u16_roundtrip, push_u16, read_u16, u16_bytes};
use bytes::BytesMut;
use vstd::prelude::*;

verus! {

/// BGP ROUTE-REFRESH message: an address family to re-advertise.
#[derive(Debug, Clone, Copy, PartialEq, Eq, Structural)]
pub struct RouteRefresh {
    pub afi: u16,
    pub safi: u8,
}

/// What parsing a ROUTE-REFRESH body gives: `None` below four bytes.
pub open spec fn spec_parse_route_refresh(s: Seq<u8>) -> Option<RouteRefresh> {
    if s.len() < 4 {
        None
    } else {
        Some(RouteRefresh { afi: be_value(s.subrange(0, 2)) as u16, safi: s[3] })
    }
}

/// The body of a ROUTE-REFRESH: AFI, a reserved zero byte, SAFI.
pub open spec fn route_refresh_body(r: RouteRefresh) -> Seq<u8> {
    u16_bytes(r.afi) + seq![0u8, r.safi]
}

/// The whole wire form of a ROUTE-REFRESH (a 23-byte message of type 5).
pub open spec fn route_refresh_bytes(r: RouteRefresh) -> Seq<u8> {
    marker_bytes() + u16_bytes(23) + seq![5u8] + route_refresh_body(r)
}

impl RouteRefresh {
    pub fn new(afi: u16, safi: u8) -> (r: Self)
        ensures
            r.afi == afi,
            r.safi == safi,
    {
        RouteRefresh { afi, safi }
    }

    /// Parse a ROUTE-REFRESH body (without header).
    pub fn parse(data: &[u8]) -> (r: Option<Self>)
        ensures
            r == spec_parse_route_refresh(data@),
    {
        if data.len() < 4 {
            return None;
        }
        Some(RouteRefresh { afi: read_u16(data, 0), safi: data[3] })
    }

    /// Serialize a ROUTE-REFRESH (header and body).
    pub fn serialize(&self) -> (r: BytesMut)
        ensures
            bytes_mut_contents(r) == route_refresh_bytes(*self),
    {
        let mut out: Vec<u8> = Vec::new();
        push_marker(&mut out);
        push_u16(&mut out, 23);
        out.push(5);
        push_u16(&mut out, self.afi);
        out.push(0);
        out.push(self.safi);
        assert(out@ =~= route_refresh_bytes(*self));
        bytes_mut_from_slice(out.as_slice())
    }
}

/// The body that `serialize` writes after the 19-byte header parses back to the message.
pub proof fn lemma_route_refresh_roundtrip(r: RouteRefresh)
    ensures
        route_refresh_bytes(r).len() == 23,
        spec_parse_route_refresh(route_refresh_bytes(r).skip(19)) == Some(r),
{
    lemma_u16_roundtrip(r.afi);
    lemma_u16_roundtrip(23);
    let s = route_refresh_bytes(r).skip(19);
    assert(s =~= route_refresh_body(r));
    assert(s.subrange(0, 2) =~= u16_bytes(r.afi));
}

} // verus!
