//! BGP OPEN message (RFC 4271 §4.2).

use super::{
    message_bytes, push_header, too_short, Header, MessageError, MessageErrorView, MessageType,
};
use crate::buffer::{bytes_mut_contents, bytes_mut_from_slice};
use crate::wire::{
    be_value, flat_map_bytes, lemma_flat_map_cons, lemma_flat_map_take, lemma_u16_roundtrip,
    lemma_u32_roundtrip, push_slice, push_u16, push_u32, read_u16, read_u32, u16_bytes,
    u32_bytes,
};
use bytes::BytesMut;
use vstd::prelude::*;

verus! {

/// BGP OPEN optional parameter: a type and an opaque value.
#[derive(Debug, Clone)]
pub struct OptionalParam {
    pub param_type: u8,
    pub value: Vec<u8>,
}

/// An optional parameter with its value as a sequence.
pub struct ParamView {
    pub param_type: u8,
    pub value: Seq<u8>,
}

impl View for OptionalParam {
    type V = ParamView;

    open spec fn view(&self) -> ParamView {
        ParamView { param_type: self.param_type, value: self.value@ }
    }
}

/// The views of a run of optional parameters.
pub open spec fn params_view(ps: Seq<OptionalParam>) -> Seq<ParamView> {
    ps.map_values(|p: OptionalParam| p@)
}

/// BGP OPEN message, sent first on a new connection to negotiate the session.
#[derive(Debug, Clone)]
pub struct OpenMessage {
    /// BGP version (must be 4).
    pub version: u8,
    /// The AS number of the sender.
    pub my_as: u16,
    /// Proposed hold time in seconds (0 or at least 3).
    pub hold_time: u16,
    /// BGP Identifier (router ID) of the sender, as a 32-bit number.
    pub bgp_id: u32,
    /// Optional parameters (capabilities etc.).
    pub optional_params: Vec<OptionalParam>,
}

/// An OPEN with its parameters as a sequence of views.
pub struct OpenView {
    pub version: u8,
    pub my_as: u16,
    pub hold_time: u16,
    pub bgp_id: u32,
    pub optional_params: Seq<ParamView>,
}

impl View for OpenMessage {
    type V = OpenView;

    open spec fn view(&self) -> OpenView {
        OpenView {
            version: self.version,
            my_as: self.my_as,
            hold_time: self.hold_time,
            bgp_id: self.bgp_id,
            optional_params: params_view(self.optional_params@),
        }
    }
}

/// The text of the error for a parameter that runs past its section.
pub open spec fn truncated_param_text() -> Seq<char> {
    "Truncated optional parameter"@
}

/// What parsing an optional-parameters section `s` gives. A trailing single
/// byte is ignored.
pub open spec fn spec_parse_params(s: Seq<u8>) -> Result<Seq<ParamView>, MessageErrorView>
    decreases s.len(),
{
    if s.len() < 2 {
        Ok(Seq::empty())
    } else {
        let l = s[1] as int;
        if s.len() - 2 < l {
            Err(MessageErrorView::Parse(truncated_param_text()))
        } else {
            match spec_parse_params(s.skip(2 + l)) {
                Ok(ps) => Ok(seq![ParamView { param_type: s[0], value: s.subrange(2, 2 + l) }] + ps),
                Err(e) => Err(e),
            }
        }
    }
}

/// What parsing an OPEN body gives.
pub open spec fn spec_parse_open(s: Seq<u8>) -> Result<OpenView, MessageErrorView> {
    if s.len() < 10 {
        Err(too_short(10, s.len()))
    } else {
        let opl = s[9] as int;
        if s.len() - 10 < opl {
            Err(too_short(opl as nat, (s.len() - 10) as nat))
        } else {
            match spec_parse_params(s.subrange(10, 10 + opl)) {
                Ok(ps) => Ok(
                    OpenView {
                        version: s[0],
                        my_as: be_value(s.subrange(1, 3)) as u16,
                        hold_time: be_value(s.subrange(3, 5)) as u16,
                        bgp_id: be_value(s.subrange(5, 9)) as u32,
                        optional_params: ps,
                    },
                ),
                Err(e) => Err(e),
            }
        }
    }
}

/// The wire form of one optional parameter; the length keeps the low 8 bits.
pub open spec fn param_bytes(p: ParamView) -> Seq<u8> {
    seq![p.param_type, (p.value.len() % 256) as u8] + p.value
}

/// The wire form of a run of optional parameters.
pub open spec fn params_bytes(ps: Seq<ParamView>) -> Seq<u8> {
    flat_map_bytes(ps, |p: ParamView| param_bytes(p))
}

/// The body of an OPEN; the parameter-section length keeps the low 8 bits.
pub open spec fn open_body(o: OpenView) -> Seq<u8> {
    let opt = params_bytes(o.optional_params);
    seq![o.version] + u16_bytes(o.my_as) + u16_bytes(o.hold_time) + u32_bytes(o.bgp_id) + seq![
        (opt.len() % 256) as u8,
    ] + opt
}

/// An OPEN that its wire form carries exactly: every parameter value and the
/// whole parameter section fit their one-octet length fields.
pub open spec fn open_wire_ok(o: OpenView) -> bool {
    &&& forall|i: int|
        0 <= i < o.optional_params.len() ==> (#[trigger] o.optional_params[i]).value.len() <= 255
    &&& params_bytes(o.optional_params).len() <= 255
}

/// Copies `len` bytes of `buf` starting at `start`.
pub(crate) fn copy_range(buf: &[u8], start: usize, len: usize) -> (r: Vec<u8>)
    requires
        start + len <= buf@.len(),
    ensures
        r@ == buf@.subrange(start as int, start + len),
{
    let mut v: Vec<u8> = Vec::new();
    let mut i: usize = 0;
    while i < len
        invariant
            i <= len,
            start + len <= buf@.len(),
            start + len <= buf.len(),
            v@ == buf@.subrange(start as int, start + i),
        decreases len - i,
    {
        v.push(buf[start + i]);
        i = i + 1;
        assert(v@ =~= buf@.subrange(start as int, start + i));
    }
    v
}

impl OpenMessage {
    /// An OPEN of version 4 with no optional parameters.
    pub fn new(my_as: u16, hold_time: u16, bgp_id: u32) -> (r: Self)
        ensures
            r.version == 4,
            r.my_as == my_as,
            r.hold_time == hold_time,
            r.bgp_id == bgp_id,
            r.optional_params@.len() == 0,
    {
        OpenMessage { version: 4, my_as, hold_time, bgp_id, optional_params: Vec::new() }
    }

    /// Parse an OPEN body (without header).
    pub fn parse(body: &[u8]) -> (r: Result<Self, MessageError>)
        ensures
            match r {
                Ok(o) => spec_parse_open(body@) == Ok::<OpenView, MessageErrorView>(o@),
                Err(e) => spec_parse_open(body@) == Err::<OpenView, MessageErrorView>(e@),
            },
    {
        if body.len() < 10 {
            return Err(MessageError::TooShort { expected: 10, got: body.len() });
        }
        let version = body[0];
        let my_as = read_u16(body, 1);
        let hold_time = read_u16(body, 3);
        let bgp_id = read_u32(body, 5);
        let opt_param_len = body[9] as usize;
        if body.len() - 10 < opt_param_len {
            return Err(MessageError::TooShort { expected: opt_param_len, got: body.len() - 10 });
        }
        let ghost region = body@.subrange(10, 10 + opt_param_len);
        let mut optional_params: Vec<OptionalParam> = Vec::new();
        let mut pos: usize = 10;
        let end: usize = 10 + opt_param_len;
        assert(region.skip(0) =~= region);
        while end - pos >= 2
            invariant
                10 <= pos <= end <= body@.len(),
                end == 10 + opt_param_len,
                opt_param_len == body@[9] as usize,
                region == body@.subrange(10, end as int),
                spec_parse_params(region) == match spec_parse_params(region.skip(pos - 10)) {
                    Ok(ps) => Ok::<Seq<ParamView>, MessageErrorView>(
                        params_view(optional_params@) + ps,
                    ),
                    Err(e) => Err(e),
                },
            decreases end - pos,
        {
            let ghost rest = region.skip(pos - 10);
            let param_type = body[pos];
            let param_len = body[pos + 1] as usize;
            assert(rest[0] == param_type && rest[1] == param_len);
            assert(rest.len() == end - pos);
            if end - pos - 2 < param_len {
                assert(spec_parse_params(rest) == Err::<Seq<ParamView>, MessageErrorView>(
                    MessageErrorView::Parse(truncated_param_text()),
                ));
                let text = String::from_str("Truncated optional parameter");
                let e = MessageError::Parse(text);
                assert(spec_parse_params(region) == Err::<Seq<ParamView>, MessageErrorView>(
                    MessageErrorView::Parse(truncated_param_text()),
                ));
                assert(e@ == MessageErrorView::Parse(truncated_param_text()));
                assert(spec_parse_open(body@) == Err::<OpenView, MessageErrorView>(e@));
                return Err(e);
            }
            let value = copy_range(body, pos + 2, param_len);
            let p = OptionalParam { param_type, value };
            proof {
                assert(rest.skip(2 + param_len) =~= region.skip(pos + 2 + param_len - 10));
                assert(rest.subrange(2, 2 + param_len as int) =~= value@);
                match spec_parse_params(region.skip(pos + 2 + param_len - 10)) {
                    Ok(ps) => {
                        assert(params_view(optional_params@.push(p)) =~= params_view(
                            optional_params@,
                        ).push(p@));
                        assert(params_view(optional_params@) + (seq![p@] + ps) =~= params_view(
                            optional_params@,
                        ).push(p@) + ps);
                    },
                    Err(e) => {},
                }
            }
            optional_params.push(p);
            pos = pos + 2 + param_len;
        }
        proof {
            assert(params_view(optional_params@) + Seq::<ParamView>::empty() =~= params_view(
                optional_params@,
            ));
        }
        Ok(OpenMessage { version, my_as, hold_time, bgp_id, optional_params })
    }

    /// Serialize an OPEN (header and body).
    pub fn serialize(&self) -> (r: BytesMut)
        requires
            forall|i: int|
                0 <= i < self.optional_params@.len() ==> (#[trigger] self.optional_params@[i]).value@.len()
                    <= 255,
            self.optional_params@.len() <= 255,
        ensures
            bytes_mut_contents(r) == message_bytes(MessageType::Open, open_body(self@)),
    {
        let ghost pv = params_view(self.optional_params@);
        let mut opt: Vec<u8> = Vec::new();
        let mut i: usize = 0;
        proof {
            assert(pv.take(0) =~= Seq::<ParamView>::empty());
        }
        while i < self.optional_params.len()
            invariant
                i <= self.optional_params@.len() <= 255,
                pv == params_view(self.optional_params@),
                forall|k: int|
                    0 <= k < self.optional_params@.len() ==> (#[trigger] self.optional_params@[k]).value@.len()
                        <= 255,
                opt@ == params_bytes(pv.take(i as int)),
                opt@.len() <= 257 * i,
            decreases self.optional_params@.len() - i,
        {
            let p = &self.optional_params[i];
            opt.push(p.param_type);
            opt.push((p.value.len() % 256) as u8);
            push_slice(&mut opt, p.value.as_slice());
            proof {
                lemma_flat_map_take(pv, i as int, |q: ParamView| param_bytes(q));
                assert(pv[i as int] == p@);
                assert(opt@ =~= params_bytes(pv.take(i + 1)));
            }
            i = i + 1;
        }
        assert(pv.take(pv.len() as int) =~= pv);
        let mut body: Vec<u8> = Vec::new();
        body.push(self.version);
        push_u16(&mut body, self.my_as);
        push_u16(&mut body, self.hold_time);
        push_u32(&mut body, self.bgp_id);
        body.push((opt.len() % 256) as u8);
        push_slice(&mut body, opt.as_slice());
        proof {
            assert(body@ =~= open_body(self@));
            lemma_u16_roundtrip(self.my_as);
            lemma_u16_roundtrip(self.hold_time);
            lemma_u32_roundtrip(self.bgp_id);
        }
        let hdr = Header::new(MessageType::Open, body.len());
        let mut out: Vec<u8> = Vec::new();
        push_header(&mut out, &hdr);
        push_slice(&mut out, body.as_slice());
        proof {
            assert(out@ =~= super::header_bytes(hdr) + open_body(self@));
        }
        bytes_mut_from_slice(out.as_slice())
    }
}

/// Reading back an optional-parameters section gives the parameters.
pub proof fn lemma_params_roundtrip(ps: Seq<ParamView>)
    requires
        forall|i: int| 0 <= i < ps.len() ==> (#[trigger] ps[i]).value.len() <= 255,
    ensures
        spec_parse_params(params_bytes(ps)) == Ok::<Seq<ParamView>, MessageErrorView>(ps),
    decreases ps.len(),
{
    if ps.len() > 0 {
        let p = ps[0];
        let tail = ps.skip(1);
        assert(ps =~= seq![p] + tail);
        lemma_flat_map_cons(p, tail, |q: ParamView| param_bytes(q));
        assert forall|i: int| 0 <= i < tail.len() implies (#[trigger] tail[i]).value.len()
            <= 255 by {
            assert(tail[i] == ps[i + 1]);
        }
        lemma_params_roundtrip(tail);
        let s = params_bytes(ps);
        let l = p.value.len() as int;
        assert(s == param_bytes(p) + params_bytes(tail));
        assert(s[1] as int == l);
        assert(s.skip(2 + l) =~= params_bytes(tail));
        assert(s.subrange(2, 2 + l) =~= p.value);
        assert(seq![ParamView { param_type: s[0], value: s.subrange(2, 2 + l) }] + tail =~= ps);
    } else {
        assert(ps =~= Seq::<ParamView>::empty());
    }
}

/// Reading back the body of an OPEN gives the OPEN.
pub proof fn lemma_open_roundtrip(o: OpenView)
    requires
        open_wire_ok(o),
    ensures
        spec_parse_open(open_body(o)) == Ok::<OpenView, MessageErrorView>(o),
{
    let opt = params_bytes(o.optional_params);
    let s = open_body(o);
    lemma_u16_roundtrip(o.my_as);
    lemma_u16_roundtrip(o.hold_time);
    lemma_u32_roundtrip(o.bgp_id);
    lemma_params_roundtrip(o.optional_params);
    assert(s.subrange(1, 3) =~= u16_bytes(o.my_as));
    assert(s.subrange(3, 5) =~= u16_bytes(o.hold_time));
    assert(s.subrange(5, 9) =~= u32_bytes(o.bgp_id));
    assert(s[9] as int == opt.len());
    assert(s.subrange(10, 10 + opt.len() as int) =~= opt);
}

} // verus!
