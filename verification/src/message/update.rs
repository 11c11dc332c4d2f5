//! BGP UPDATE message and IPv4 NLRI prefixes (RFC 4271 §4.3).

use super::{
    message_bytes, push_header, too_short, Header, MessageError, MessageErrorView, MessageType,
};
use crate::buffer::{bytes_mut_contents, bytes_mut_extend, bytes_mut_from_slice};
use crate::wire::{
    be_value, flat_map_bytes, lemma_flat_map_cons, lemma_flat_map_take, lemma_u16_roundtrip,
    lemma_u32_roundtrip, push_slice, push_u16, push_u32, read_u16, read_u32, u16_bytes,
    u32_bytes,
};
use bytes::BytesMut;
use vstd::prelude::*;

verus! {

/// A BGP NLRI prefix: an IPv4 network (as a 32-bit number) and its length.
#[derive(Debug, Clone, Copy, PartialEq, Eq, Hash, Structural)]
pub struct Prefix {
    pub prefix_len: u8,
    pub address: u32,
}

/// Octets needed to carry a prefix of `len` bits: `ceil(len / 8)`.
pub open spec fn prefix_byte_len(len: u8) -> nat {
    ((len as nat) + 7) / 8
}

/// `s` followed by zero octets up to four octets.
pub open spec fn pad4(s: Seq<u8>) -> Seq<u8> {
    s + Seq::new((4 - s.len()) as nat, |i: int| 0u8)
}

/// The text of the error for a prefix longer than 32 bits.
pub open spec fn invalid_prefix_len_text() -> Seq<char> {
    "Invalid prefix length"@
}

/// What parsing one prefix from the front of `s` gives: the prefix and the
/// number of octets it takes. A length above 32 bits is refused.
pub open spec fn spec_parse_prefix(s: Seq<u8>) -> Result<(Prefix, nat), MessageErrorView> {
    if s.len() < 1 {
        Err(too_short(1, 0))
    } else {
        let bl = prefix_byte_len(s[0]);
        if s.len() - 1 < bl {
            Err(too_short(bl, (s.len() - 1) as nat))
        } else if s[0] > 32 {
            Err(MessageErrorView::Parse(invalid_prefix_len_text()))
        } else {
            Ok(
                (
                    Prefix {
                        prefix_len: s[0],
                        address: be_value(pad4(s.subrange(1, 1 + bl as int))) as u32,
                    },
                    1 + bl,
                ),
            )
        }
    }
}

/// Prepends `p` to the prefixes of `r`, or passes its error on.
pub open spec fn cons_prefix(p: Prefix, r: Result<Seq<Prefix>, MessageErrorView>) -> Result<
    Seq<Prefix>,
    MessageErrorView,
> {
    match r {
        Ok(ps) => Ok(seq![p] + ps),
        Err(e) => Err(e),
    }
}

/// What parsing a run of prefixes that fills `s` gives.
pub open spec fn spec_parse_prefixes(s: Seq<u8>) -> Result<Seq<Prefix>, MessageErrorView>
    decreases s.len(),
{
    if s.len() == 0 {
        Ok(Seq::empty())
    } else {
        let n = 1 + prefix_byte_len(s[0]);
        match spec_parse_prefix(s) {
            Err(e) => Err(e),
            Ok((p, _)) => if n <= s.len() {
                cons_prefix(p, spec_parse_prefixes(s.skip(n as int)))
            } else {
                Err(too_short(n, s.len()))
            },
        }
    }
}

/// The wire form of a prefix: its length, then its first `ceil(len / 8)` octets.
pub open spec fn prefix_bytes(p: Prefix) -> Seq<u8> {
    seq![p.prefix_len] + u32_bytes(p.address).take(prefix_byte_len(p.prefix_len) as int)
}

/// The wire form of a run of prefixes.
pub open spec fn prefixes_bytes(ps: Seq<Prefix>) -> Seq<u8> {
    flat_map_bytes(ps, |p: Prefix| prefix_bytes(p))
}

/// A prefix that its wire form carries exactly: at most 32 bits long, with
/// zero address octets after the encoded ones.
pub open spec fn prefix_wire_ok(p: Prefix) -> bool {
    &&& p.prefix_len <= 32
    &&& pad4(u32_bytes(p.address).take(prefix_byte_len(p.prefix_len) as int)) == u32_bytes(
        p.address,
    )
}

/// Parses one prefix starting at `pos`.
pub(crate) fn parse_prefix_at(buf: &[u8], pos: usize) -> (r: Result<(Prefix, usize), MessageError>)
    requires
        pos <= buf@.len(),
    ensures
        match r {
            Ok((p, n)) => spec_parse_prefix(buf@.skip(pos as int)) == Ok::<
                (Prefix, nat),
                MessageErrorView,
            >((p, n as nat)),
            Err(e) => spec_parse_prefix(buf@.skip(pos as int)) == Err::<
                (Prefix, nat),
                MessageErrorView,
            >(e@),
        },
{
    let ghost s = buf@.skip(pos as int);
    if buf.len() - pos < 1 {
        return Err(MessageError::TooShort { expected: 1, got: 0 });
    }
    let prefix_len = buf[pos];
    let byte_len = ((prefix_len as usize) + 7) / 8;
    if buf.len() - pos - 1 < byte_len {
        return Err(MessageError::TooShort { expected: byte_len, got: buf.len() - pos - 1 });
    }
    if prefix_len > 32 {
        let text = String::from_str("Invalid prefix length");
        proof {
            reveal_strlit("Invalid prefix length");
            assert(text@ =~= "Invalid prefix length"@);
        }
        return Err(MessageError::Parse(text));
    }
    let mut b: Vec<u8> = Vec::new();
    let mut i: usize = 0;
    while i < byte_len
        invariant
            i <= byte_len <= 4,
            pos + 1 + byte_len <= buf@.len(),
            pos + 1 + byte_len <= buf.len(),
            b@ == buf@.subrange(pos + 1, pos + 1 + i),
        decreases byte_len - i,
    {
        b.push(buf[pos + 1 + i]);
        i = i + 1;
        assert(b@ =~= buf@.subrange(pos + 1, pos + 1 + i));
    }
    let ghost got = b@;
    while b.len() < 4
        invariant
            b@.len() <= 4,
            b@ == got + Seq::new((b@.len() - got.len()) as nat, |j: int| 0u8),
            got.len() <= 4,
        decreases 4 - b@.len(),
    {
        b.push(0);
        assert(b@ =~= got + Seq::new((b@.len() - got.len()) as nat, |j: int| 0u8));
    }
    let address = read_u32(&b, 0);
    proof {
        assert(s.subrange(1, 1 + byte_len) =~= got);
        assert(b@ =~= pad4(got));
        assert(b@.subrange(0, 4) =~= b@);
    }
    Ok((Prefix { prefix_len, address }, 1 + byte_len))
}

/// Appends the wire form of a prefix.
pub(crate) fn push_prefix(out: &mut Vec<u8>, p: &Prefix)
    requires
        p.prefix_len <= 32,
    ensures
        final(out)@ == old(out)@ + prefix_bytes(*p),
{
    out.push(p.prefix_len);
    let mut octets: Vec<u8> = Vec::new();
    push_u32(&mut octets, p.address);
    proof {
        lemma_u32_roundtrip(p.address);
    }
    let byte_len = p.encoded_len();
    let mut i: usize = 0;
    while i < byte_len
        invariant
            i <= byte_len <= 4,
            octets@ == u32_bytes(p.address),
            octets@.len() == 4,
            byte_len == prefix_byte_len(p.prefix_len),
            out@ == old(out)@ + seq![p.prefix_len] + octets@.take(i as int),
        decreases byte_len - i,
    {
        out.push(octets[i]);
        i = i + 1;
        assert(out@ =~= old(out)@ + seq![p.prefix_len] + octets@.take(i as int));
    }
    assert(out@ =~= old(out)@ + prefix_bytes(*p));
}

/// Appends the wire form of a run of prefixes.
pub(crate) fn push_prefixes(out: &mut Vec<u8>, ps: &Vec<Prefix>)
    requires
        forall|i: int| 0 <= i < ps@.len() ==> (#[trigger] ps@[i]).prefix_len <= 32,
    ensures
        final(out)@ == old(out)@ + prefixes_bytes(ps@),
{
    let mut i: usize = 0;
    proof {
        assert(ps@.take(0) =~= Seq::<Prefix>::empty());
        assert(old(out)@ + prefixes_bytes(ps@.take(0)) =~= old(out)@);
    }
    while i < ps.len()
        invariant
            i <= ps@.len(),
            forall|k: int| 0 <= k < ps@.len() ==> (#[trigger] ps@[k]).prefix_len <= 32,
            out@ == old(out)@ + prefixes_bytes(ps@.take(i as int)),
        decreases ps@.len() - i,
    {
        push_prefix(out, &ps[i]);
        proof {
            lemma_flat_map_take(ps@, i as int, |p: Prefix| prefix_bytes(p));
            assert(out@ =~= old(out)@ + prefixes_bytes(ps@.take(i + 1)));
        }
        i = i + 1;
    }
    assert(ps@.take(ps@.len() as int) =~= ps@);
}

/// Parses a run of prefixes that fills `buf`.
pub(crate) fn parse_prefix_list(buf: &[u8]) -> (r: Result<Vec<Prefix>, MessageError>)
    ensures
        match r {
            Ok(v) => spec_parse_prefixes(buf@) == Ok::<Seq<Prefix>, MessageErrorView>(v@),
            Err(e) => spec_parse_prefixes(buf@) == Err::<Seq<Prefix>, MessageErrorView>(e@),
        },
{
    let mut acc: Vec<Prefix> = Vec::new();
    let mut pos: usize = 0;
    assert(buf@.skip(0) =~= buf@);
    while pos < buf.len()
        invariant
            pos <= buf@.len(),
            spec_parse_prefixes(buf@) == match spec_parse_prefixes(buf@.skip(pos as int)) {
                Ok(ps) => Ok::<Seq<Prefix>, MessageErrorView>(acc@ + ps),
                Err(e) => Err(e),
            },
        decreases buf@.len() - pos,
    {
        let ghost rest = buf@.skip(pos as int);
        match parse_prefix_at(buf, pos) {
            Err(e) => {
                return Err(e);
            },
            Ok((p, n)) => {
                proof {
                    assert(rest.skip(n as int) =~= buf@.skip(pos + n));
                    let tail = spec_parse_prefixes(buf@.skip(pos + n));
                    match tail {
                        Ok(ps) => {
                            assert(acc@ + (seq![p] + ps) =~= acc@.push(p) + ps);
                        },
                        Err(e) => {},
                    }
                }
                acc.push(p);
                pos = pos + n;
            },
        }
    }
    assert(buf@.skip(pos as int) =~= Seq::<u8>::empty());
    assert(acc@ + Seq::<Prefix>::empty() =~= acc@);
    Ok(acc)
}

impl Prefix {
    pub fn new(address: u32, prefix_len: u8) -> (r: Self)
        ensures
            r.address == address,
            r.prefix_len == prefix_len,
    {
        Prefix { address, prefix_len }
    }

    /// Number of octets needed to encode the prefix: `ceil(prefix_len / 8)`.
    pub fn encoded_len(&self) -> (r: usize)
        ensures
            r == prefix_byte_len(self.prefix_len),
    {
        ((self.prefix_len as usize) + 7) / 8
    }

    /// Parse one prefix from the front of `buf`; gives the prefix and the
    /// number of octets it took.
    pub fn parse(buf: &[u8]) -> (r: Result<(Self, usize), MessageError>)
        ensures
            match r {
                Ok((p, n)) => spec_parse_prefix(buf@) == Ok::<(Prefix, nat), MessageErrorView>(
                    (p, n as nat),
                ),
                Err(e) => spec_parse_prefix(buf@) == Err::<(Prefix, nat), MessageErrorView>(e@),
            },
    {
        assert(buf@.skip(0) =~= buf@);
        parse_prefix_at(buf, 0)
    }

    /// Append the wire form of this prefix to `buf`.
    pub fn serialize(&self, buf: &mut BytesMut)
        requires
            self.prefix_len <= 32,
        ensures
            bytes_mut_contents(*final(buf)) == bytes_mut_contents(*old(buf)) + prefix_bytes(*self),
    {
        let mut out: Vec<u8> = Vec::new();
        push_prefix(&mut out, self);
        assert(out@ =~= prefix_bytes(*self));
        bytes_mut_extend(buf, out.as_slice());
    }
}

/// Reading a prefix back from its wire form gives the prefix.
pub proof fn lemma_prefix_roundtrip(p: Prefix, rest: Seq<u8>)
    requires
        prefix_wire_ok(p),
    ensures
        spec_parse_prefix(prefix_bytes(p) + rest) == Ok::<(Prefix, nat), MessageErrorView>(
            (p, 1 + prefix_byte_len(p.prefix_len)),
        ),
{
    lemma_u32_roundtrip(p.address);
    let bl = prefix_byte_len(p.prefix_len);
    let s = prefix_bytes(p) + rest;
    assert(s.subrange(1, 1 + bl as int) =~= u32_bytes(p.address).take(bl as int));
}

/// Reading a run of prefixes back from its wire form gives the run.
pub proof fn lemma_prefixes_roundtrip(ps: Seq<Prefix>)
    requires
        forall|i: int| 0 <= i < ps.len() ==> prefix_wire_ok(#[trigger] ps[i]),
    ensures
        spec_parse_prefixes(prefixes_bytes(ps)) == Ok::<Seq<Prefix>, MessageErrorView>(ps),
    decreases ps.len(),
{
    if ps.len() > 0 {
        let p = ps[0];
        let tail = ps.skip(1);
        assert(ps =~= seq![p] + tail);
        lemma_flat_map_cons(p, tail, |q: Prefix| prefix_bytes(q));
        assert(prefixes_bytes(ps) == prefix_bytes(p) + prefixes_bytes(tail));
        lemma_prefix_roundtrip(p, prefixes_bytes(tail));
        assert forall|i: int| 0 <= i < tail.len() implies prefix_wire_ok(#[trigger] tail[i]) by {
            assert(tail[i] == ps[i + 1]);
        }
        lemma_prefixes_roundtrip(tail);
        let s = prefixes_bytes(ps);
        let n = 1 + prefix_byte_len(p.prefix_len);
        assert(s[0] == p.prefix_len);
        assert(spec_parse_prefix(s) == Ok::<(Prefix, nat), MessageErrorView>((p, n)));
        assert(s.skip(n as int) =~= prefixes_bytes(tail));
        assert(seq![p] + tail =~= ps);
        lemma_u32_roundtrip(p.address);
        assert(prefix_bytes(p).len() == n);
        assert(n <= s.len());
        assert(spec_parse_prefixes(s) == cons_prefix(p, spec_parse_prefixes(s.skip(n as int))));
    } else {
        assert(prefixes_bytes(ps) =~= Seq::<u8>::empty());
        assert(ps =~= Seq::<Prefix>::empty());
    }
}

/// BGP UPDATE message: withdrawn routes, raw path attributes and NLRI.
#[derive(Debug, Clone)]
pub struct UpdateMessage {
    pub withdrawn_routes: Vec<Prefix>,
    pub path_attributes: Vec<u8>,
    pub nlri: Vec<Prefix>,
}

/// An UPDATE with its parts as sequences.
pub struct UpdateView {
    pub withdrawn_routes: Seq<Prefix>,
    pub path_attributes: Seq<u8>,
    pub nlri: Seq<Prefix>,
}

impl View for UpdateMessage {
    type V = UpdateView;

    open spec fn view(&self) -> UpdateView {
        UpdateView {
            withdrawn_routes: self.withdrawn_routes@,
            path_attributes: self.path_attributes@,
            nlri: self.nlri@,
        }
    }
}

/// What parsing an UPDATE body gives.
pub open spec fn spec_parse_update(s: Seq<u8>) -> Result<UpdateView, MessageErrorView> {
    if s.len() < 4 {
        Err(too_short(4, s.len()))
    } else {
        let wl = be_value(s.subrange(0, 2)) as int;
        if s.len() - 2 < wl {
            Err(too_short(wl as nat, (s.len() - 2) as nat))
        } else {
            match spec_parse_prefixes(s.subrange(2, 2 + wl)) {
                Err(e) => Err(e),
                Ok(w) => {
                    let r2 = s.len() - 2 - wl;
                    if r2 < 2 {
                        Err(too_short(2, r2 as nat))
                    } else {
                        let al = be_value(s.subrange(2 + wl, 4 + wl)) as int;
                        if r2 - 2 < al {
                            Err(too_short(al as nat, (r2 - 2) as nat))
                        } else {
                            match spec_parse_prefixes(s.skip(4 + wl + al)) {
                                Err(e) => Err(e),
                                Ok(n) => Ok(
                                    UpdateView {
                                        withdrawn_routes: w,
                                        path_attributes: s.subrange(4 + wl, 4 + wl + al),
                                        nlri: n,
                                    },
                                ),
                            }
                        }
                    }
                },
            }
        }
    }
}

/// The body of an UPDATE; each length field keeps the low 16 bits.
pub open spec fn update_body(u: UpdateView) -> Seq<u8> {
    let wb = prefixes_bytes(u.withdrawn_routes);
    let nb = prefixes_bytes(u.nlri);
    u16_bytes((wb.len() % 65536) as u16) + wb + u16_bytes(
        (u.path_attributes.len() % 65536) as u16,
    ) + u.path_attributes + nb
}

/// An UPDATE that its wire form carries exactly.
pub open spec fn update_wire_ok(u: UpdateView) -> bool {
    &&& forall|i: int|
        0 <= i < u.withdrawn_routes.len() ==> prefix_wire_ok(#[trigger] u.withdrawn_routes[i])
    &&& forall|i: int| 0 <= i < u.nlri.len() ==> prefix_wire_ok(#[trigger] u.nlri[i])
    &&& prefixes_bytes(u.withdrawn_routes).len() < 65536
    &&& u.path_attributes.len() < 65536
}

impl UpdateMessage {
    pub fn new() -> (r: Self)
        ensures
            r@.withdrawn_routes.len() == 0,
            r@.path_attributes.len() == 0,
            r@.nlri.len() == 0,
    {
        UpdateMessage { withdrawn_routes: Vec::new(), path_attributes: Vec::new(), nlri: Vec::new() }
    }

    /// Parse an UPDATE body (without header).
    pub fn parse(body: &[u8]) -> (r: Result<Self, MessageError>)
        ensures
            match r {
                Ok(u) => spec_parse_update(body@) == Ok::<UpdateView, MessageErrorView>(u@),
                Err(e) => spec_parse_update(body@) == Err::<UpdateView, MessageErrorView>(e@),
            },
    {
        if body.len() < 4 {
            return Err(MessageError::TooShort { expected: 4, got: body.len() });
        }
        let withdrawn_len = read_u16(body, 0) as usize;
        if body.len() - 2 < withdrawn_len {
            return Err(MessageError::TooShort { expected: withdrawn_len, got: body.len() - 2 });
        }
        let withdrawn_routes = parse_prefix_list(&body[2..2 + withdrawn_len])?;
        let r2 = body.len() - 2 - withdrawn_len;
        if r2 < 2 {
            return Err(MessageError::TooShort { expected: 2, got: r2 });
        }
        let attr_len = read_u16(body, 2 + withdrawn_len) as usize;
        if r2 - 2 < attr_len {
            return Err(MessageError::TooShort { expected: attr_len, got: r2 - 2 });
        }
        let start = 4 + withdrawn_len;
        let mut path_attributes: Vec<u8> = Vec::new();
        push_slice(&mut path_attributes, &body[start..start + attr_len]);
        let nlri = parse_prefix_list(&body[start + attr_len..body.len()])?;
        proof {
            assert(body@.subrange((start + attr_len) as int, body@.len() as int) =~= body@.skip(
                (start + attr_len) as int,
            ));
        }
        Ok(UpdateMessage { withdrawn_routes, path_attributes, nlri })
    }

    /// Serialize an UPDATE (header and body).
    pub fn serialize(&self) -> (r: BytesMut)
        requires
            forall|i: int|
                0 <= i < self.withdrawn_routes@.len() ==> (#[trigger] self.withdrawn_routes@[i]).prefix_len
                    <= 32,
            forall|i: int| 0 <= i < self.nlri@.len() ==> (#[trigger] self.nlri@[i]).prefix_len <= 32,
            5 * (self.withdrawn_routes@.len() + self.nlri@.len()) + self.path_attributes@.len()
                + 23 <= usize::MAX,
        ensures
            bytes_mut_contents(r) == message_bytes(MessageType::Update, update_body(self@)),
    {
        let mut wb: Vec<u8> = Vec::new();
        push_prefixes(&mut wb, &self.withdrawn_routes);
        let mut nb: Vec<u8> = Vec::new();
        push_prefixes(&mut nb, &self.nlri);
        proof {
            lemma_prefixes_len_bound(self.withdrawn_routes@);
            lemma_prefixes_len_bound(self.nlri@);
        }
        let body_len = 2 + wb.len() + 2 + self.path_attributes.len() + nb.len();
        let hdr = Header::new(MessageType::Update, body_len);
        let mut out: Vec<u8> = Vec::new();
        push_header(&mut out, &hdr);
        push_u16(&mut out, (wb.len() % 65536) as u16);
        push_slice(&mut out, wb.as_slice());
        push_u16(&mut out, (self.path_attributes.len() % 65536) as u16);
        push_slice(&mut out, self.path_attributes.as_slice());
        push_slice(&mut out, nb.as_slice());
        proof {
            lemma_u16_roundtrip((wb.len() % 65536) as u16);
            lemma_u16_roundtrip((self.path_attributes.len() % 65536) as u16);
            let body = update_body(self@);
            assert(body.len() == body_len);
            assert(hdr == Header {
                length: ((19 + body.len()) % 65536) as u16,
                msg_type: MessageType::Update,
            });
            assert(out@ =~= super::header_bytes(hdr) + body);
        }
        bytes_mut_from_slice(out.as_slice())
    }
}

/// Each prefix takes at most five octets on the wire.
pub proof fn lemma_prefixes_len_bound(ps: Seq<Prefix>)
    requires
        forall|i: int| 0 <= i < ps.len() ==> (#[trigger] ps[i]).prefix_len <= 32,
    ensures
        prefixes_bytes(ps).len() <= 5 * ps.len(),
    decreases ps.len(),
{
    if ps.len() > 0 {
        assert(forall|i: int|
            0 <= i < ps.drop_last().len() ==> ps.drop_last()[i] == ps[i]);
        lemma_prefixes_len_bound(ps.drop_last());
        lemma_u32_roundtrip(ps.last().address);
    }
}

/// Reading back the body of an UPDATE gives the UPDATE.
pub proof fn lemma_update_roundtrip(u: UpdateView)
    requires
        update_wire_ok(u),
    ensures
        spec_parse_update(update_body(u)) == Ok::<UpdateView, MessageErrorView>(u),
{
    let wb = prefixes_bytes(u.withdrawn_routes);
    let nb = prefixes_bytes(u.nlri);
    let a = u.path_attributes;
    let s = update_body(u);
    lemma_u16_roundtrip(wb.len() as u16);
    lemma_u16_roundtrip(a.len() as u16);
    lemma_prefixes_roundtrip(u.withdrawn_routes);
    lemma_prefixes_roundtrip(u.nlri);
    let wl = wb.len() as int;
    let al = a.len() as int;
    assert(s.subrange(0, 2) =~= u16_bytes(wb.len() as u16));
    assert(s.subrange(2, 2 + wl) =~= wb);
    assert(s.subrange(2 + wl, 4 + wl) =~= u16_bytes(a.len() as u16));
    assert(s.subrange(4 + wl, 4 + wl + al) =~= a);
    assert(s.skip(4 + wl + al) =~= nb);
}

impl Default for UpdateMessage {
    fn default() -> (r: Self)
        ensures
            r@.withdrawn_routes.len() == 0,
            r@.path_attributes.len() == 0,
            r@.nlri.len() == 0,
    {
        Self::new()
    }
}

} // verus!
