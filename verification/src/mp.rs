//! Multi-protocol reachability (RFC 4760): address families, IPv4/IPv6
//! prefixes, MP_REACH_NLRI and MP_UNREACH_NLRI.

use crate::buffer::{bytes_mut_contents, bytes_mut_extend, bytes_mut_from_slice};
use crate::wire::{
    be_bytes, be_value, flat_map_bytes, lemma_be_bytes_len, lemma_be_value_bound,
    lemma_be_value_of_bytes, lemma_flat_map_cons, lemma_flat_map_take, lemma_pow256_small,
    lemma_u16_roundtrip, pow256, push_be, push_u16, read_be, read_u16, u16_bytes,
};
use bytes::BytesMut;
use vstd::prelude::*;

verus! {

/// Address Family Identifiers (IANA).
#[derive(Debug, Clone, Copy, PartialEq, Eq, Hash, Structural)]
pub enum Afi {
    Ipv4,
    Ipv6,
}

/// Subsequent Address Family Identifiers (IANA).
#[derive(Debug, Clone, Copy, PartialEq, Eq, Hash, Structural)]
pub enum Safi {
    Unicast,
    Multicast,
    LabeledUnicast,
}

/// Multi-protocol errors.
#[derive(Debug, Clone, Copy, PartialEq, Eq, Structural)]
pub enum MpError {
    UnknownAfi(u16),
    UnknownSafi(u8),
    TooShort,
    InvalidAddress,
}

pub open spec fn spec_afi_code(a: Afi) -> u16 {
    match a {
        Afi::Ipv4 => 1,
        Afi::Ipv6 => 2,
    }
}

pub open spec fn spec_afi_of(v: u16) -> Option<Afi> {
    if v == 1 {
        Some(Afi::Ipv4)
    } else if v == 2 {
        Some(Afi::Ipv6)
    } else {
        None
    }
}

pub open spec fn spec_safi_code(s: Safi) -> u8 {
    match s {
        Safi::Unicast => 1,
        Safi::Multicast => 2,
        Safi::LabeledUnicast => 4,
    }
}

pub open spec fn spec_safi_of(v: u8) -> Option<Safi> {
    if v == 1 {
        Some(Safi::Unicast)
    } else if v == 2 {
        Some(Safi::Multicast)
    } else if v == 4 {
        Some(Safi::LabeledUnicast)
    } else {
        None
    }
}

impl Afi {
    pub fn code(&self) -> (r: u16)
        ensures
            r == spec_afi_code(*self),
    {
        match self {
            Afi::Ipv4 => 1,
            Afi::Ipv6 => 2,
        }
    }

    /// The family with code `v`; any other code is an error.
    pub fn from_u16(v: u16) -> (r: Result<Afi, MpError>)
        ensures
            r == match spec_afi_of(v) {
                Some(a) => Ok::<Afi, MpError>(a),
                None => Err(MpError::UnknownAfi(v)),
            },
    {
        if v == 1 {
            Ok(Afi::Ipv4)
        } else if v == 2 {
            Ok(Afi::Ipv6)
        } else {
            Err(MpError::UnknownAfi(v))
        }
    }
}

impl Safi {
    pub fn code(&self) -> (r: u8)
        ensures
            r == spec_safi_code(*self),
    {
        match self {
            Safi::Unicast => 1,
            Safi::Multicast => 2,
            Safi::LabeledUnicast => 4,
        }
    }

    /// The subsequent family with code `v`; any other code is an error.
    pub fn from_u8(v: u8) -> (r: Result<Safi, MpError>)
        ensures
            r == match spec_safi_of(v) {
                Some(s) => Ok::<Safi, MpError>(s),
                None => Err(MpError::UnknownSafi(v)),
            },
    {
        if v == 1 {
            Ok(Safi::Unicast)
        } else if v == 2 {
            Ok(Safi::Multicast)
        } else if v == 4 {
            Ok(Safi::LabeledUnicast)
        } else {
            Err(MpError::UnknownSafi(v))
        }
    }
}

/// An IPv4 or IPv6 address, as a 32- or 128-bit number.
#[derive(Debug, Clone, Copy, PartialEq, Eq, Hash, Structural)]
pub enum IpAddress {
    V4(u32),
    V6(u128),
}

/// Octets of an address of family `afi`.
pub open spec fn afi_width(afi: Afi) -> nat {
    match afi {
        Afi::Ipv4 => 4,
        Afi::Ipv6 => 16,
    }
}

/// Octets of an address.
pub open spec fn ip_width(a: IpAddress) -> nat {
    match a {
        IpAddress::V4(_) => 4,
        IpAddress::V6(_) => 16,
    }
}

/// The octets of an address, most significant first.
pub open spec fn ip_octets(a: IpAddress) -> Seq<u8> {
    match a {
        IpAddress::V4(v) => be_bytes(v as nat, 4),
        IpAddress::V6(v) => be_bytes(v as nat, 16),
    }
}

/// The address of family `afi` whose octets are `s` (of that many octets).
pub open spec fn ip_of(afi: Afi, s: Seq<u8>) -> IpAddress {
    match afi {
        Afi::Ipv4 => IpAddress::V4(be_value(s) as u32),
        Afi::Ipv6 => IpAddress::V6(be_value(s) as u128),
    }
}

/// `s` followed by zero octets up to `w` octets.
pub open spec fn pad_to(s: Seq<u8>, w: nat) -> Seq<u8> {
    s + Seq::new((w - s.len()) as nat, |i: int| 0u8)
}

/// Octets that carry a prefix of `len` bits.
pub open spec fn mp_byte_len(len: u8) -> nat {
    ((len as nat) + 7) / 8
}

/// An IP network prefix for multi-protocol use.
#[derive(Debug, Clone, Copy, PartialEq, Eq, Structural)]
pub struct MpPrefix {
    pub afi: Afi,
    pub prefix_len: u8,
    pub address: IpAddress,
}

/// What parsing one prefix of family `afi` from the front of `s` gives, with
/// the octets it takes. Only as many octets as the address holds are read.
pub open spec fn spec_parse_mp_prefix(s: Seq<u8>, afi: Afi) -> Result<(MpPrefix, nat), MpError> {
    if s.len() < 1 {
        Err(MpError::TooShort)
    } else {
        let bl = mp_byte_len(s[0]);
        if s.len() - 1 < bl {
            Err(MpError::TooShort)
        } else {
            let w = afi_width(afi);
            let k = if bl < w {
                bl
            } else {
                w
            };
            Ok(
                (
                    MpPrefix {
                        afi,
                        prefix_len: s[0],
                        address: ip_of(afi, pad_to(s.subrange(1, 1 + k as int), w)),
                    },
                    1 + k,
                ),
            )
        }
    }
}

/// The wire form of a prefix: its length, then its first `ceil(len / 8)` octets.
pub open spec fn mp_prefix_bytes(p: MpPrefix) -> Seq<u8> {
    seq![p.prefix_len] + ip_octets(p.address).take(mp_byte_len(p.prefix_len) as int)
}

/// A prefix that its wire form carries exactly: the address matches the
/// family, the length fits the address, and address octets after the encoded
/// ones are zero.
pub open spec fn mp_prefix_wire_ok(p: MpPrefix) -> bool {
    &&& ip_width(p.address) == afi_width(p.afi)
    &&& mp_byte_len(p.prefix_len) <= ip_width(p.address)
    &&& pad_to(ip_octets(p.address).take(mp_byte_len(p.prefix_len) as int), ip_width(p.address))
        == ip_octets(p.address)
}

/// Whether a prefix's encoded octets fit its address.
pub open spec fn mp_prefix_fits(p: MpPrefix) -> bool {
    mp_byte_len(p.prefix_len) <= ip_width(p.address)
}

/// Appends the octets of an address.
fn push_ip(out: &mut Vec<u8>, a: &IpAddress)
    ensures
        final(out)@ == old(out)@ + ip_octets(*a),
        ip_octets(*a).len() == ip_width(*a),
{
    match a {
        IpAddress::V4(v) => {
            push_be(out, *v as u128, 4);
            proof {
                lemma_be_bytes_len(*v as nat, 4);
            }
        },
        IpAddress::V6(v) => {
            push_be(out, *v, 16);
            proof {
                lemma_be_bytes_len(*v as nat, 16);
            }
        },
    }
}

/// Appends the wire form of a prefix.
fn push_mp_prefix(out: &mut Vec<u8>, p: &MpPrefix)
    requires
        mp_prefix_fits(*p),
    ensures
        final(out)@ == old(out)@ + mp_prefix_bytes(*p),
{
    out.push(p.prefix_len);
    let mut octets: Vec<u8> = Vec::new();
    push_ip(&mut octets, &p.address);
    let byte_len = p.encoded_len();
    let mut i: usize = 0;
    assert(octets@ =~= ip_octets(p.address));
    while i < byte_len
        invariant
            i <= byte_len,
            byte_len as nat == mp_byte_len(p.prefix_len),
            byte_len <= octets@.len(),
            octets@ == ip_octets(p.address),
            out@ == old(out)@ + seq![p.prefix_len] + octets@.take(i as int),
        decreases byte_len - i,
    {
        out.push(octets[i]);
        i = i + 1;
        assert(out@ =~= old(out)@ + seq![p.prefix_len] + octets@.take(i as int));
    }
    assert(out@ =~= old(out)@ + mp_prefix_bytes(*p));
}

/// Parses one prefix of family `afi` starting at `pos`.
fn parse_mp_prefix_at(buf: &[u8], pos: usize, afi: Afi) -> (r: Result<(MpPrefix, usize), MpError>)
    requires
        pos <= buf@.len(),
    ensures
        match r {
            Ok((p, n)) => spec_parse_mp_prefix(buf@.skip(pos as int), afi) == Ok::<
                (MpPrefix, nat),
                MpError,
            >((p, n as nat)),
            Err(e) => spec_parse_mp_prefix(buf@.skip(pos as int), afi) == Err::<
                (MpPrefix, nat),
                MpError,
            >(e),
        },
{
    let ghost s = buf@.skip(pos as int);
    if buf.len() - pos < 1 {
        return Err(MpError::TooShort);
    }
    let prefix_len = buf[pos];
    let byte_len = ((prefix_len as usize) + 7) / 8;
    if buf.len() - pos - 1 < byte_len {
        return Err(MpError::TooShort);
    }
    let w: usize = match afi {
        Afi::Ipv4 => 4,
        Afi::Ipv6 => 16,
    };
    let k = if byte_len < w {
        byte_len
    } else {
        w
    };
    let mut b: Vec<u8> = Vec::new();
    let mut i: usize = 0;
    while i < k
        invariant
            i <= k <= w,
            w <= 16,
            pos + 1 + k <= buf@.len(),
            pos + 1 + k <= buf.len(),
            b@ == buf@.subrange(pos + 1, pos + 1 + i),
        decreases k - i,
    {
        b.push(buf[pos + 1 + i]);
        i = i + 1;
        assert(b@ =~= buf@.subrange(pos + 1, pos + 1 + i));
    }
    let ghost got = b@;
    while b.len() < w
        invariant
            b@.len() <= w,
            w <= 16,
            got.len() <= w,
            b@ == got + Seq::new((b@.len() - got.len()) as nat, |j: int| 0u8),
        decreases w - b@.len(),
    {
        b.push(0);
        assert(b@ =~= got + Seq::new((b@.len() - got.len()) as nat, |j: int| 0u8));
    }
    let v = read_be(&b, 0, w);
    proof {
        assert(s.subrange(1, 1 + k) =~= got);
        assert(b@ =~= pad_to(got, w as nat));
        assert(b@.subrange(0, w as int) =~= b@);
        lemma_pow256_small();
    }
    let address = match afi {
        Afi::Ipv4 => IpAddress::V4(v as u32),
        Afi::Ipv6 => IpAddress::V6(v),
    };
    Ok((MpPrefix { afi, prefix_len, address }, 1 + k))
}

impl MpPrefix {
    pub fn ipv4(addr: u32, len: u8) -> (r: Self)
        ensures
            r == (MpPrefix { afi: Afi::Ipv4, prefix_len: len, address: IpAddress::V4(addr) }),
    {
        MpPrefix { afi: Afi::Ipv4, prefix_len: len, address: IpAddress::V4(addr) }
    }

    pub fn ipv6(addr: u128, len: u8) -> (r: Self)
        ensures
            r == (MpPrefix { afi: Afi::Ipv6, prefix_len: len, address: IpAddress::V6(addr) }),
    {
        MpPrefix { afi: Afi::Ipv6, prefix_len: len, address: IpAddress::V6(addr) }
    }

    /// Octets needed to encode the prefix: `ceil(prefix_len / 8)`.
    pub fn encoded_len(&self) -> (r: usize)
        ensures
            r == mp_byte_len(self.prefix_len),
    {
        ((self.prefix_len as usize) + 7) / 8
    }

    /// Parse one prefix of family `afi` from the front of `buf`; gives the
    /// prefix and the number of octets it took.
    pub fn parse(buf: &[u8], afi: Afi) -> (r: Result<(Self, usize), MpError>)
        ensures
            match r {
                Ok((p, n)) => spec_parse_mp_prefix(buf@, afi) == Ok::<(MpPrefix, nat), MpError>(
                    (p, n as nat),
                ),
                Err(e) => spec_parse_mp_prefix(buf@, afi) == Err::<(MpPrefix, nat), MpError>(e),
            },
    {
        assert(buf@.skip(0) =~= buf@);
        parse_mp_prefix_at(buf, 0, afi)
    }

    /// Append the wire form of this prefix to `buf`.
    pub fn serialize(&self, buf: &mut BytesMut)
        requires
            mp_prefix_fits(*self),
        ensures
            bytes_mut_contents(*final(buf)) == bytes_mut_contents(*old(buf)) + mp_prefix_bytes(*self),
    {
        let mut out: Vec<u8> = Vec::new();
        push_mp_prefix(&mut out, self);
        assert(out@ =~= mp_prefix_bytes(*self));
        bytes_mut_extend(buf, out.as_slice());
    }
}

/// Reading a prefix back from its wire form gives the prefix.
pub proof fn lemma_mp_prefix_roundtrip(p: MpPrefix, rest: Seq<u8>)
    requires
        mp_prefix_wire_ok(p),
    ensures
        spec_parse_mp_prefix(mp_prefix_bytes(p) + rest, p.afi) == Ok::<(MpPrefix, nat), MpError>(
            (p, 1 + mp_byte_len(p.prefix_len)),
        ),
{
    let bl = mp_byte_len(p.prefix_len);
    let s = mp_prefix_bytes(p) + rest;
    let w = afi_width(p.afi);
    lemma_pow256_small();
    match p.address {
        IpAddress::V4(v) => {
            lemma_be_bytes_len(v as nat, 4);
            lemma_be_value_of_bytes(v as nat, 4);
        },
        IpAddress::V6(v) => {
            lemma_be_bytes_len(v as nat, 16);
            lemma_be_value_of_bytes(v as nat, 16);
        },
    }
    assert(s.subrange(1, 1 + bl as int) =~= ip_octets(p.address).take(bl as int));
}

/// Prepends `p` to the prefixes of `r`, or passes its error on.
pub open spec fn cons_mp(p: MpPrefix, r: Result<Seq<MpPrefix>, MpError>) -> Result<Seq<MpPrefix>, MpError> {
    match r {
        Ok(ps) => Ok(seq![p] + ps),
        Err(e) => Err(e),
    }
}

/// What parsing a run of prefixes of family `afi` that fills `s` gives.
pub open spec fn spec_parse_mp_prefixes(s: Seq<u8>, afi: Afi) -> Result<Seq<MpPrefix>, MpError>
    decreases s.len(),
{
    if s.len() == 0 {
        Ok(Seq::empty())
    } else {
        match spec_parse_mp_prefix(s, afi) {
            Err(e) => Err(e),
            Ok((p, n)) => if 1 <= n <= s.len() {
                cons_mp(p, spec_parse_mp_prefixes(s.skip(n as int), afi))
            } else {
                Err(MpError::TooShort)
            },
        }
    }
}

/// The wire form of a run of prefixes.
pub open spec fn mp_prefixes_bytes(ps: Seq<MpPrefix>) -> Seq<u8> {
    flat_map_bytes(ps, |p: MpPrefix| mp_prefix_bytes(p))
}

/// Parses a run of prefixes of family `afi` that fills `buf`.
fn parse_mp_prefix_list(buf: &[u8], afi: Afi) -> (r: Result<Vec<MpPrefix>, MpError>)
    ensures
        match r {
            Ok(v) => spec_parse_mp_prefixes(buf@, afi) == Ok::<Seq<MpPrefix>, MpError>(v@),
            Err(e) => spec_parse_mp_prefixes(buf@, afi) == Err::<Seq<MpPrefix>, MpError>(e),
        },
{
    let mut acc: Vec<MpPrefix> = Vec::new();
    let mut pos: usize = 0;
    assert(buf@.skip(0) =~= buf@);
    while pos < buf.len()
        invariant
            pos <= buf@.len(),
            spec_parse_mp_prefixes(buf@, afi) == match spec_parse_mp_prefixes(
                buf@.skip(pos as int),
                afi,
            ) {
                Ok(ps) => Ok::<Seq<MpPrefix>, MpError>(acc@ + ps),
                Err(e) => Err(e),
            },
        decreases buf@.len() - pos,
    {
        let ghost rest = buf@.skip(pos as int);
        match parse_mp_prefix_at(buf, pos, afi) {
            Err(e) => {
                return Err(e);
            },
            Ok((p, n)) => {
                proof {
                    assert(rest.skip(n as int) =~= buf@.skip(pos + n));
                    match spec_parse_mp_prefixes(buf@.skip(pos + n), afi) {
                        Ok(ps) => {
                            assert(acc@ + (seq![p] + ps) =~= acc@.push(p) + ps);
                        },
                        Err(e) => {},
                    }
                }
                acc.push(p);
                pos = pos + n;
            },
        }
    }
    assert(buf@.skip(pos as int) =~= Seq::<u8>::empty());
    assert(acc@ + Seq::<MpPrefix>::empty() =~= acc@);
    Ok(acc)
}

/// Appends the wire form of a run of prefixes.
fn push_mp_prefixes(out: &mut Vec<u8>, ps: &Vec<MpPrefix>)
    requires
        forall|i: int| 0 <= i < ps@.len() ==> mp_prefix_fits(#[trigger] ps@[i]),
    ensures
        final(out)@ == old(out)@ + mp_prefixes_bytes(ps@),
{
    let mut i: usize = 0;
    assert(ps@.take(0) =~= Seq::<MpPrefix>::empty());
    assert(old(out)@ + mp_prefixes_bytes(ps@.take(0)) =~= old(out)@);
    while i < ps.len()
        invariant
            i <= ps@.len(),
            forall|k: int| 0 <= k < ps@.len() ==> mp_prefix_fits(#[trigger] ps@[k]),
            out@ == old(out)@ + mp_prefixes_bytes(ps@.take(i as int)),
        decreases ps@.len() - i,
    {
        push_mp_prefix(out, &ps[i]);
        proof {
            lemma_flat_map_take(ps@, i as int, |p: MpPrefix| mp_prefix_bytes(p));
            assert(out@ =~= old(out)@ + mp_prefixes_bytes(ps@.take(i + 1)));
        }
        i = i + 1;
    }
    assert(ps@.take(ps@.len() as int) =~= ps@);
}

/// Reading a run of prefixes back from its wire form gives the run.
pub proof fn lemma_mp_prefixes_roundtrip(ps: Seq<MpPrefix>, afi: Afi)
    requires
        forall|i: int| 0 <= i < ps.len() ==> mp_prefix_wire_ok(#[trigger] ps[i]) && ps[i].afi == afi,
    ensures
        spec_parse_mp_prefixes(mp_prefixes_bytes(ps), afi) == Ok::<Seq<MpPrefix>, MpError>(ps),
    decreases ps.len(),
{
    if ps.len() > 0 {
        let p = ps[0];
        let tail = ps.skip(1);
        assert(ps =~= seq![p] + tail);
        lemma_flat_map_cons(p, tail, |q: MpPrefix| mp_prefix_bytes(q));
        lemma_mp_prefix_roundtrip(p, mp_prefixes_bytes(tail));
        assert forall|i: int| 0 <= i < tail.len() implies mp_prefix_wire_ok(#[trigger] tail[i])
            && tail[i].afi == afi by {
            assert(tail[i] == ps[i + 1]);
        }
        lemma_mp_prefixes_roundtrip(tail, afi);
        let s = mp_prefixes_bytes(ps);
        let n = 1 + mp_byte_len(p.prefix_len);
        assert(s == mp_prefix_bytes(p) + mp_prefixes_bytes(tail));
        assert(mp_prefix_bytes(p).len() == n);
        assert(s.skip(n as int) =~= mp_prefixes_bytes(tail));
        assert(seq![p] + tail =~= ps);
    } else {
        assert(mp_prefixes_bytes(ps) =~= Seq::<u8>::empty());
        assert(ps =~= Seq::<MpPrefix>::empty());
    }
}

/// The next-hop addresses that fill `s` for family `afi`; a remainder shorter
/// than an address is ignored.
pub open spec fn spec_parse_next_hops(s: Seq<u8>, afi: Afi) -> Seq<IpAddress>
    decreases s.len(),
{
    let w = afi_width(afi);
    if s.len() < w {
        Seq::empty()
    } else {
        seq![ip_of(afi, s.subrange(0, w as int))] + spec_parse_next_hops(s.skip(w as int), afi)
    }
}

/// The wire form of a run of addresses.
pub open spec fn ips_bytes(ips: Seq<IpAddress>) -> Seq<u8> {
    flat_map_bytes(ips, |a: IpAddress| ip_octets(a))
}

/// BGP MP_REACH_NLRI attribute value (RFC 4760 §3).
#[derive(Debug, Clone)]
pub struct MpReachNlri {
    pub afi: Afi,
    pub safi: Safi,
    pub next_hops: Vec<IpAddress>,
    pub nlri: Vec<MpPrefix>,
}

/// An MP_REACH_NLRI with its lists as sequences.
pub struct MpReachView {
    pub afi: Afi,
    pub safi: Safi,
    pub next_hops: Seq<IpAddress>,
    pub nlri: Seq<MpPrefix>,
}

impl View for MpReachNlri {
    type V = MpReachView;

    open spec fn view(&self) -> MpReachView {
        MpReachView { afi: self.afi, safi: self.safi, next_hops: self.next_hops@, nlri: self.nlri@ }
    }
}

/// What parsing an MP_REACH_NLRI value gives: AFI, SAFI, next-hop length and
/// next hops, a reserved octet (which must be there), then prefixes.
pub open spec fn spec_parse_mp_reach(s: Seq<u8>) -> Result<MpReachView, MpError> {
    if s.len() < 4 {
        Err(MpError::TooShort)
    } else {
        match spec_afi_of(be_value(s.subrange(0, 2)) as u16) {
            None => Err(MpError::UnknownAfi(be_value(s.subrange(0, 2)) as u16)),
            Some(afi) => match spec_safi_of(s[2]) {
                None => Err(MpError::UnknownSafi(s[2])),
                Some(safi) => {
                    let nl = s[3] as int;
                    if s.len() - 4 < nl + 1 {
                        Err(MpError::TooShort)
                    } else {
                        match spec_parse_mp_prefixes(s.skip(5 + nl), afi) {
                            Err(e) => Err(e),
                            Ok(nlri) => Ok(
                                MpReachView {
                                    afi,
                                    safi,
                                    next_hops: spec_parse_next_hops(s.subrange(4, 4 + nl), afi),
                                    nlri,
                                },
                            ),
                        }
                    }
                },
            },
        }
    }
}

/// The wire form of an MP_REACH_NLRI value; the next-hop length keeps its
/// low 8 bits and the reserved octet is zero.
pub open spec fn mp_reach_bytes(r: MpReachView) -> Seq<u8> {
    let nh = ips_bytes(r.next_hops);
    u16_bytes(spec_afi_code(r.afi)) + seq![spec_safi_code(r.safi), (nh.len() % 256) as u8] + nh
        + seq![0u8] + mp_prefixes_bytes(r.nlri)
}

/// An MP_REACH_NLRI that its wire form carries exactly.
pub open spec fn mp_reach_wire_ok(r: MpReachView) -> bool {
    &&& forall|i: int|
        0 <= i < r.nlri.len() ==> mp_prefix_wire_ok(#[trigger] r.nlri[i]) && r.nlri[i].afi == r.afi
    &&& forall|i: int| 0 <= i < r.next_hops.len() ==> ip_width(#[trigger] r.next_hops[i]) == afi_width(r.afi)
    &&& ips_bytes(r.next_hops).len() <= 255
}

/// Reads the next hops of family `afi` that fill `s`.
fn parse_next_hops(s: &[u8], afi: Afi) -> (r: Vec<IpAddress>)
    ensures
        r@ == spec_parse_next_hops(s@, afi),
{
    let w: usize = match afi {
        Afi::Ipv4 => 4,
        Afi::Ipv6 => 16,
    };
    let mut out: Vec<IpAddress> = Vec::new();
    let mut pos: usize = 0;
    assert(s@.skip(0) =~= s@);
    while pos <= s.len() && s.len() - pos >= w
        invariant
            w == afi_width(afi),
            pos <= s@.len(),
            spec_parse_next_hops(s@, afi) == out@ + spec_parse_next_hops(s@.skip(pos as int), afi),
        decreases s@.len() - pos,
    {
        let v = read_be(s, pos, w);
        proof {
            lemma_pow256_small();
            let rest = s@.skip(pos as int);
            assert(rest.subrange(0, w as int) =~= s@.subrange(pos as int, pos + w));
            assert(rest.skip(w as int) =~= s@.skip(pos + w));
        }
        let a = match afi {
            Afi::Ipv4 => IpAddress::V4(v as u32),
            Afi::Ipv6 => IpAddress::V6(v),
        };
        proof {
            assert(out@ + (seq![a] + spec_parse_next_hops(s@.skip(pos + w), afi)) =~= out@.push(a)
                + spec_parse_next_hops(s@.skip(pos + w), afi));
        }
        out.push(a);
        pos = pos + w;
    }
    proof {
        let rest = s@.skip(pos as int);
        assert(rest.len() < w);
    }
    assert(out@ + Seq::<IpAddress>::empty() =~= out@);
    out
}

impl MpReachNlri {
    pub fn new(afi: Afi, safi: Safi, next_hop: IpAddress) -> (r: Self)
        ensures
            r@.afi == afi,
            r@.safi == safi,
            r@.next_hops == seq![next_hop],
            r@.nlri.len() == 0,
    {
        let r = MpReachNlri { afi, safi, next_hops: vec![next_hop], nlri: Vec::new() };
        assert(r@.next_hops =~= seq![next_hop]);
        r
    }

    /// Parse an MP_REACH_NLRI attribute value.
    pub fn parse(buf: &[u8]) -> (r: Result<Self, MpError>)
        ensures
            match r {
                Ok(m) => spec_parse_mp_reach(buf@) == Ok::<MpReachView, MpError>(m@),
                Err(e) => spec_parse_mp_reach(buf@) == Err::<MpReachView, MpError>(e),
            },
    {
        if buf.len() < 4 {
            return Err(MpError::TooShort);
        }
        let afi = Afi::from_u16(read_u16(buf, 0))?;
        let safi = Safi::from_u8(buf[2])?;
        let nh_len = buf[3] as usize;
        if buf.len() - 4 < nh_len + 1 {
            return Err(MpError::TooShort);
        }
        let next_hops = parse_next_hops(&buf[4..4 + nh_len], afi);
        let nlri = parse_mp_prefix_list(&buf[5 + nh_len..buf.len()], afi)?;
        proof {
            assert(buf@.subrange(5 + nh_len, buf@.len() as int) =~= buf@.skip(5 + nh_len));
        }
        Ok(MpReachNlri { afi, safi, next_hops, nlri })
    }

    /// Serialize the attribute value (without the outer flags, type and length).
    pub fn serialize(&self) -> (r: BytesMut)
        requires
            forall|i: int| 0 <= i < self.nlri@.len() ==> mp_prefix_fits(#[trigger] self.nlri@[i]),
        ensures
            bytes_mut_contents(r) == mp_reach_bytes(self@),
    {
        let mut nh: Vec<u8> = Vec::new();
        let mut i: usize = 0;
        assert(self.next_hops@.take(0) =~= Seq::<IpAddress>::empty());
        while i < self.next_hops.len()
            invariant
                i <= self.next_hops@.len(),
                nh@ == ips_bytes(self.next_hops@.take(i as int)),
            decreases self.next_hops@.len() - i,
        {
            push_ip(&mut nh, &self.next_hops[i]);
            proof {
                lemma_flat_map_take(self.next_hops@, i as int, |a: IpAddress| ip_octets(a));
            }
            i = i + 1;
        }
        assert(self.next_hops@.take(i as int) =~= self.next_hops@);
        let mut out: Vec<u8> = Vec::new();
        push_u16(&mut out, self.afi.code());
        out.push(self.safi.code());
        out.push((nh.len() % 256) as u8);
        crate::wire::push_slice(&mut out, nh.as_slice());
        out.push(0);
        push_mp_prefixes(&mut out, &self.nlri);
        assert(out@ =~= mp_reach_bytes(self@));
        bytes_mut_from_slice(out.as_slice())
    }
}

/// Reading next hops back from their wire form gives them.
pub proof fn lemma_next_hops_roundtrip(ips: Seq<IpAddress>, afi: Afi)
    requires
        forall|i: int| 0 <= i < ips.len() ==> ip_width(#[trigger] ips[i]) == afi_width(afi),
    ensures
        spec_parse_next_hops(ips_bytes(ips), afi) == ips,
    decreases ips.len(),
{
    lemma_pow256_small();
    if ips.len() > 0 {
        let a = ips[0];
        let tail = ips.skip(1);
        assert(ips =~= seq![a] + tail);
        lemma_flat_map_cons(a, tail, |x: IpAddress| ip_octets(x));
        assert forall|i: int| 0 <= i < tail.len() implies ip_width(#[trigger] tail[i]) == afi_width(afi) by {
            assert(tail[i] == ips[i + 1]);
        }
        lemma_next_hops_roundtrip(tail, afi);
        let w = afi_width(afi);
        let s = ips_bytes(ips);
        match a {
            IpAddress::V4(v) => {
                lemma_be_bytes_len(v as nat, 4);
                lemma_be_value_of_bytes(v as nat, 4);
            },
            IpAddress::V6(v) => {
                lemma_be_bytes_len(v as nat, 16);
                lemma_be_value_of_bytes(v as nat, 16);
            },
        }
        assert(s == ip_octets(a) + ips_bytes(tail));
        assert(s.subrange(0, w as int) =~= ip_octets(a));
        assert(s.skip(w as int) =~= ips_bytes(tail));
        assert(ip_of(afi, ip_octets(a)) == a);
        assert(seq![a] + tail =~= ips);
    } else {
        assert(ips_bytes(ips) =~= Seq::<u8>::empty());
        assert(ips =~= Seq::<IpAddress>::empty());
    }
}

/// Reading an MP_REACH_NLRI value back from its wire form gives it.
pub proof fn lemma_mp_reach_roundtrip(r: MpReachView)
    requires
        mp_reach_wire_ok(r),
    ensures
        spec_parse_mp_reach(mp_reach_bytes(r)) == Ok::<MpReachView, MpError>(r),
{
    let nh = ips_bytes(r.next_hops);
    let s = mp_reach_bytes(r);
    let nl = nh.len() as int;
    lemma_u16_roundtrip(spec_afi_code(r.afi));
    lemma_next_hops_roundtrip(r.next_hops, r.afi);
    lemma_mp_prefixes_roundtrip(r.nlri, r.afi);
    assert(s.subrange(0, 2) =~= u16_bytes(spec_afi_code(r.afi)));
    assert(s.subrange(4, 4 + nl) =~= nh);
    assert(s.skip(5 + nl) =~= mp_prefixes_bytes(r.nlri));
}

/// BGP MP_UNREACH_NLRI attribute value (RFC 4760 §4).
#[derive(Debug, Clone)]
pub struct MpUnreachNlri {
    pub afi: Afi,
    pub safi: Safi,
    pub withdrawn: Vec<MpPrefix>,
}

/// An MP_UNREACH_NLRI with its prefixes as a sequence.
pub struct MpUnreachView {
    pub afi: Afi,
    pub safi: Safi,
    pub withdrawn: Seq<MpPrefix>,
}

impl View for MpUnreachNlri {
    type V = MpUnreachView;

    open spec fn view(&self) -> MpUnreachView {
        MpUnreachView { afi: self.afi, safi: self.safi, withdrawn: self.withdrawn@ }
    }
}

/// What parsing an MP_UNREACH_NLRI value gives.
pub open spec fn spec_parse_mp_unreach(s: Seq<u8>) -> Result<MpUnreachView, MpError> {
    if s.len() < 3 {
        Err(MpError::TooShort)
    } else {
        match spec_afi_of(be_value(s.subrange(0, 2)) as u16) {
            None => Err(MpError::UnknownAfi(be_value(s.subrange(0, 2)) as u16)),
            Some(afi) => match spec_safi_of(s[2]) {
                None => Err(MpError::UnknownSafi(s[2])),
                Some(safi) => match spec_parse_mp_prefixes(s.skip(3), afi) {
                    Err(e) => Err(e),
                    Ok(w) => Ok(MpUnreachView { afi, safi, withdrawn: w }),
                },
            },
        }
    }
}

/// The wire form of an MP_UNREACH_NLRI value.
pub open spec fn mp_unreach_bytes(u: MpUnreachView) -> Seq<u8> {
    u16_bytes(spec_afi_code(u.afi)) + seq![spec_safi_code(u.safi)] + mp_prefixes_bytes(u.withdrawn)
}

impl MpUnreachNlri {
    pub fn new(afi: Afi, safi: Safi) -> (r: Self)
        ensures
            r@.afi == afi,
            r@.safi == safi,
            r@.withdrawn.len() == 0,
    {
        MpUnreachNlri { afi, safi, withdrawn: Vec::new() }
    }

    /// Parse an MP_UNREACH_NLRI attribute value.
    pub fn parse(buf: &[u8]) -> (r: Result<Self, MpError>)
        ensures
            match r {
                Ok(m) => spec_parse_mp_unreach(buf@) == Ok::<MpUnreachView, MpError>(m@),
                Err(e) => spec_parse_mp_unreach(buf@) == Err::<MpUnreachView, MpError>(e),
            },
    {
        if buf.len() < 3 {
            return Err(MpError::TooShort);
        }
        let afi = Afi::from_u16(read_u16(buf, 0))?;
        let safi = Safi::from_u8(buf[2])?;
        let withdrawn = parse_mp_prefix_list(&buf[3..buf.len()], afi)?;
        proof {
            assert(buf@.subrange(3, buf@.len() as int) =~= buf@.skip(3));
        }
        Ok(MpUnreachNlri { afi, safi, withdrawn })
    }

    /// Serialize the attribute value (without the outer flags, type and length).
    pub fn serialize(&self) -> (r: BytesMut)
        requires
            forall|i: int|
                0 <= i < self.withdrawn@.len() ==> mp_prefix_fits(#[trigger] self.withdrawn@[i]),
        ensures
            bytes_mut_contents(r) == mp_unreach_bytes(self@),
    {
        let mut out: Vec<u8> = Vec::new();
        push_u16(&mut out, self.afi.code());
        out.push(self.safi.code());
        push_mp_prefixes(&mut out, &self.withdrawn);
        assert(out@ =~= mp_unreach_bytes(self@));
        bytes_mut_from_slice(out.as_slice())
    }
}

/// Reading an MP_UNREACH_NLRI value back from its wire form gives it.
pub proof fn lemma_mp_unreach_roundtrip(u: MpUnreachView)
    requires
        forall|i: int|
            0 <= i < u.withdrawn.len() ==> mp_prefix_wire_ok(#[trigger] u.withdrawn[i])
                && u.withdrawn[i].afi == u.afi,
    ensures
        spec_parse_mp_unreach(mp_unreach_bytes(u)) == Ok::<MpUnreachView, MpError>(u),
{
    let s = mp_unreach_bytes(u);
    lemma_u16_roundtrip(spec_afi_code(u.afi));
    lemma_mp_prefixes_roundtrip(u.withdrawn, u.afi);
    assert(s.subrange(0, 2) =~= u16_bytes(spec_afi_code(u.afi)));
    assert(s.skip(3) =~= mp_prefixes_bytes(u.withdrawn));
}

} // verus!
