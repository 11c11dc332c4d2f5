//! BGP capability negotiation (RFC 5492, RFC 4760, RFC 6793, RFC 4724, RFC 2918).

use crate::message::open::{params_bytes, params_view, OptionalParam, ParamView};
use crate::text::{push_decimal, push_str, spec_decimal};
use crate::wire::{
    be_value, flat_map_bytes, lemma_flat_map_cons, lemma_flat_map_take, lemma_u16_roundtrip,
    lemma_u32_roundtrip, push_slice, push_u16, push_u32, read_u16, read_u32, u16_bytes,
    u32_bytes,
};
use vstd::prelude::*;

verus! {

/// Well-known BGP capabilities.
#[derive(Debug, Clone, PartialEq, Eq)]
pub enum Capability {
    /// RFC 4760 — Multi-Protocol Extensions
    MultiProtocol { afi: u16, safi: u8 },
    /// RFC 2918 — Route Refresh
    RouteRefresh,
    /// RFC 6793 — 4-byte AS number
    FourOctetAsn { asn: u32 },
    /// RFC 4724 — Graceful Restart
    GracefulRestart { restart_time: u16, flags: u8 },
    /// Unknown capability (pass-through)
    Unknown { code: u8, data: Vec<u8> },
}

/// A capability with opaque data as a sequence.
pub enum CapView {
    MultiProtocol { afi: u16, safi: u8 },
    RouteRefresh,
    FourOctetAsn { asn: u32 },
    GracefulRestart { restart_time: u16, flags: u8 },
    Unknown { code: u8, data: Seq<u8> },
}

impl View for Capability {
    type V = CapView;

    open spec fn view(&self) -> CapView {
        match self {
            Capability::MultiProtocol { afi, safi } => CapView::MultiProtocol { afi: *afi, safi: *safi },
            Capability::RouteRefresh => CapView::RouteRefresh,
            Capability::FourOctetAsn { asn } => CapView::FourOctetAsn { asn: *asn },
            Capability::GracefulRestart { restart_time, flags } => CapView::GracefulRestart {
                restart_time: *restart_time,
                flags: *flags,
            },
            Capability::Unknown { code, data } => CapView::Unknown { code: *code, data: data@ },
        }
    }
}

/// The views of a run of capabilities.
pub open spec fn caps_view(cs: Seq<Capability>) -> Seq<CapView> {
    cs.map_values(|c: Capability| c@)
}

/// The capability code.
pub open spec fn spec_cap_code(c: CapView) -> u8 {
    match c {
        CapView::MultiProtocol { .. } => 1,
        CapView::RouteRefresh => 2,
        CapView::GracefulRestart { .. } => 64,
        CapView::FourOctetAsn { .. } => 65,
        CapView::Unknown { code, .. } => code,
    }
}

/// The Graceful Restart word: four flag bits, then a 12-bit restart time.
pub open spec fn gr_word(restart_time: u16, flags: u8) -> u16 {
    ((flags as nat % 16) * 4096 + restart_time as nat % 4096) as u16
}

/// The value octets of a capability.
pub open spec fn cap_value(c: CapView) -> Seq<u8> {
    match c {
        CapView::MultiProtocol { afi, safi } => u16_bytes(afi) + seq![0u8, safi],
        CapView::RouteRefresh => Seq::empty(),
        CapView::GracefulRestart { restart_time, flags } => u16_bytes(gr_word(restart_time, flags)),
        CapView::FourOctetAsn { asn } => u32_bytes(asn),
        CapView::Unknown { data, .. } => data,
    }
}

/// The wire form of a capability: code, length (low 8 bits), value.
pub open spec fn cap_bytes(c: CapView) -> Seq<u8> {
    seq![spec_cap_code(c), (cap_value(c).len() % 256) as u8] + cap_value(c)
}

/// The capability that `code` and `data` denote.
pub open spec fn spec_parse_one(code: u8, data: Seq<u8>) -> CapView {
    if code == 1 && data.len() >= 4 {
        CapView::MultiProtocol { afi: be_value(data.subrange(0, 2)) as u16, safi: data[3] }
    } else if code == 2 {
        CapView::RouteRefresh
    } else if code == 64 && data.len() >= 2 {
        let word = be_value(data.subrange(0, 2));
        CapView::GracefulRestart { flags: (word / 4096) as u8, restart_time: (word % 4096) as u16 }
    } else if code == 65 && data.len() >= 4 {
        CapView::FourOctetAsn { asn: be_value(data.subrange(0, 4)) as u32 }
    } else {
        CapView::Unknown { code, data }
    }
}

/// The capabilities in one capability parameter: from `pos` up to `end` (or
/// the end of `data`), stopping at a capability that runs past `data`. A
/// capability may run past `end` while it stays within `data`.
pub open spec fn spec_caps_in_param(data: Seq<u8>, pos: int, end: int) -> Seq<CapView>
    decreases data.len() - pos,
{
    let limit = if end < data.len() {
        end
    } else {
        data.len() as int
    };
    if pos < 0 || pos + 2 > limit {
        Seq::empty()
    } else {
        let code = data[pos];
        let cap_end = pos + 2 + data[pos + 1];
        if cap_end > data.len() {
            Seq::empty()
        } else {
            seq![spec_parse_one(code, data.subrange(pos + 2, cap_end))] + spec_caps_in_param(
                data,
                cap_end,
                end,
            )
        }
    }
}

/// The capabilities in an optional-parameters section, from `pos` on:
/// parameters of type 2 hold capabilities, other parameters are skipped.
pub open spec fn spec_parse_opt_params(data: Seq<u8>, pos: int) -> Seq<CapView>
    decreases data.len() - pos,
{
    if pos < 0 || pos + 2 > data.len() {
        Seq::empty()
    } else {
        let p2 = pos + 2;
        let next = p2 + data[pos + 1];
        let caps = if data[pos] == 2 {
            spec_caps_in_param(data, p2, next)
        } else {
            Seq::empty()
        };
        if next > data.len() {
            caps
        } else {
            caps + spec_parse_opt_params(data, next)
        }
    }
}

/// Law of capability parsing: an optional parameter whose type is not 2
/// contributes no capability; reading goes on after it when it fits in the
/// data, and stops there when its length runs past the end.
pub proof fn lemma_other_param_skipped(data: Seq<u8>, pos: int)
    requires
        0 <= pos,
        pos + 2 <= data.len(),
        data[pos] != 2,
    ensures
        spec_parse_opt_params(data, pos) == (if pos + 2 + data[pos + 1] > data.len() {
            Seq::<CapView>::empty()
        } else {
            spec_parse_opt_params(data, pos + 2 + data[pos + 1])
        }),
{
    let next = pos + 2 + data[pos + 1];
    if next <= data.len() {
        assert(Seq::<CapView>::empty() + spec_parse_opt_params(data, next) =~= spec_parse_opt_params(
            data,
            next,
        ));
    }
}

/// Whether the optional parameters read from `pos` on include one of type 2
/// (a capability parameter).
pub open spec fn has_capability_param(data: Seq<u8>, pos: int) -> bool
    decreases data.len() - pos,
{
    if pos < 0 || pos + 2 > data.len() {
        false
    } else {
        let next = pos + 2 + data[pos + 1];
        data[pos] == 2 || (next <= data.len() && has_capability_param(data, next))
    }
}

/// Law of capability parsing, on any bytes: optional parameters none of
/// which has type 2 give no capability.
pub proof fn lemma_no_capability_param(data: Seq<u8>, pos: int)
    requires
        !has_capability_param(data, pos),
    ensures
        spec_parse_opt_params(data, pos) == Seq::<CapView>::empty(),
    decreases data.len() - pos,
{
    if pos >= 0 && pos + 2 <= data.len() {
        lemma_other_param_skipped(data, pos);
        let next = pos + 2 + data[pos + 1];
        if next <= data.len() {
            lemma_no_capability_param(data, next);
        }
    }
}

/// Law of capability parsing: a capability whose declared length runs past
/// the end of the data is dropped, together with whatever would follow it
/// in its parameter.
pub proof fn lemma_overrunning_capability_dropped(data: Seq<u8>, pos: int, end: int)
    requires
        0 <= pos,
        pos + 2 <= end,
        pos + 2 <= data.len(),
        pos + 2 + data[pos + 1] > data.len(),
    ensures
        spec_caps_in_param(data, pos, end) == Seq::<CapView>::empty(),
{
}

/// A capability that its wire form carries exactly.
pub open spec fn cap_wire_ok(c: CapView) -> bool {
    match c {
        CapView::MultiProtocol { .. } => true,
        CapView::RouteRefresh => true,
        CapView::FourOctetAsn { .. } => true,
        CapView::GracefulRestart { restart_time, flags } => restart_time < 4096 && flags < 16,
        CapView::Unknown { code, data } => data.len() <= 255 && spec_parse_one(code, data) == c,
    }
}

/// The concatenated wire forms of a run of capabilities.
pub open spec fn caps_bytes(cs: Seq<CapView>) -> Seq<u8> {
    flat_map_bytes(cs, |c: CapView| cap_bytes(c))
}

/// The optional-parameters block of an OPEN that carries `cs`: its total
/// length, then one parameter of type 2 holding every capability; just a
/// zero length when there are none. Lengths keep their low 8 bits.
pub open spec fn spec_build_capabilities(cs: Seq<CapView>) -> Seq<u8> {
    let cb = caps_bytes(cs);
    if cb.len() == 0 {
        seq![0u8]
    } else {
        seq![((cb.len() + 2) % 256) as u8, 2u8, (cb.len() % 256) as u8] + cb
    }
}

/// Builds the capability optional parameters block for a BGP OPEN message.
pub fn build_capabilities(caps: &[Capability]) -> (r: Vec<u8>)
    ensures
        r@ == spec_build_capabilities(caps_view(caps@)),
{
    let ghost cv = caps_view(caps@);
    let mut cb: Vec<u8> = Vec::new();
    let mut i: usize = 0;
    assert(cv.take(0) =~= Seq::<CapView>::empty());
    while i < caps.len()
        invariant
            i <= caps@.len(),
            cv == caps_view(caps@),
            cb@ == caps_bytes(cv.take(i as int)),
        decreases caps@.len() - i,
    {
        let b = caps[i].to_bytes();
        push_slice(&mut cb, b.as_slice());
        proof {
            lemma_flat_map_take(cv, i as int, |c: CapView| cap_bytes(c));
            assert(cv[i as int] == caps@[i as int]@);
        }
        i = i + 1;
    }
    assert(cv.take(i as int) =~= cv);
    if cb.len() == 0 {
        let r: Vec<u8> = vec![0u8];
        assert(r@ =~= seq![0u8]);
        return r;
    }
    let mut result: Vec<u8> = Vec::new();
    result.push(((cb.len() % 256 + 2) % 256) as u8);
    result.push(2u8);
    result.push((cb.len() % 256) as u8);
    push_slice(&mut result, cb.as_slice());
    assert((cb@.len() % 256 + 2) % 256 == (cb@.len() + 2) % 256);
    assert(result@ =~= spec_build_capabilities(cv));
    result
}

impl Capability {
    /// The capability code.
    pub fn code(&self) -> (r: u8)
        ensures
            r == spec_cap_code(self@),
    {
        match self {
            Capability::MultiProtocol { .. } => 1,
            Capability::RouteRefresh => 2,
            Capability::GracefulRestart { .. } => 64,
            Capability::FourOctetAsn { .. } => 65,
            Capability::Unknown { code, .. } => *code,
        }
    }

    /// Serialize this capability to wire format (code + length + value).
    pub fn to_bytes(&self) -> (r: Vec<u8>)
        ensures
            r@ == cap_bytes(self@),
    {
        let mut value: Vec<u8> = Vec::new();
        match self {
            Capability::MultiProtocol { afi, safi } => {
                push_u16(&mut value, *afi);
                value.push(0);
                value.push(*safi);
            },
            Capability::RouteRefresh => {},
            Capability::GracefulRestart { restart_time, flags } => {
                let word: u16 = ((*flags as u16) % 16) * 4096 + (*restart_time % 4096);
                push_u16(&mut value, word);
            },
            Capability::FourOctetAsn { asn } => {
                push_u32(&mut value, *asn);
            },
            Capability::Unknown { data, .. } => {
                push_slice(&mut value, data.as_slice());
            },
        }
        assert(value@ =~= cap_value(self@));
        let mut out: Vec<u8> = Vec::new();
        out.push(self.code());
        out.push((value.len() % 256) as u8);
        push_slice(&mut out, value.as_slice());
        assert(out@ =~= cap_bytes(self@));
        out
    }

    /// The capability that `code` and `data` denote; anything that is not a
    /// well-formed known capability is kept as `Unknown`.
    pub fn parse_one(code: u8, data: &[u8]) -> (r: Capability)
        ensures
            r@ == spec_parse_one(code, data@),
    {
        if code == 1 && data.len() >= 4 {
            Capability::MultiProtocol { afi: read_u16(data, 0), safi: data[3] }
        } else if code == 2 {
            Capability::RouteRefresh
        } else if code == 64 && data.len() >= 2 {
            let word = read_u16(data, 0);
            Capability::GracefulRestart { flags: (word / 4096) as u8, restart_time: word % 4096 }
        } else if code == 65 && data.len() >= 4 {
            Capability::FourOctetAsn { asn: read_u32(data, 0) }
        } else {
            let mut copy: Vec<u8> = Vec::new();
            push_slice(&mut copy, data);
            assert(copy@ =~= data@);
            Capability::Unknown { code, data: copy }
        }
    }

    /// Parse capabilities from the optional parameters section of a BGP OPEN
    /// message (the bytes after the section's length octet).
    pub fn parse_optional_params(data: &[u8]) -> (r: Vec<Capability>)
        ensures
            caps_view(r@) == spec_parse_opt_params(data@, 0),
    {
        let mut caps: Vec<Capability> = Vec::new();
        let mut pos: usize = 0;
        while pos <= data.len() && data.len() - pos >= 2
            invariant
                spec_parse_opt_params(data@, 0) == caps_view(caps@) + spec_parse_opt_params(
                    data@,
                    pos as int,
                ),
            decreases data@.len() - pos,
        {
            let param_type = data[pos];
            let param_len = data[pos + 1] as usize;
            let p2 = pos + 2;
            let fits = param_len <= data.len() - p2;
            let ghost end: int = p2 + param_len;
            let ghost before = caps_view(caps@);
            if param_type == 2 {
                let limit = if fits {
                    p2 + param_len
                } else {
                    data.len()
                };
                let mut cap_pos = p2;
                while cap_pos <= limit && limit - cap_pos >= 2
                    invariant
                        limit <= data@.len(),
                        limit == (if end < data@.len() { end } else { data@.len() as int }),
                        p2 <= cap_pos,
                        p2 <= data@.len(),
                        spec_caps_in_param(data@, p2 as int, end) == caps_view(caps@).skip(
                            before.len() as int,
                        ) + spec_caps_in_param(data@, cap_pos as int, end),
                        before == caps_view(caps@).take(before.len() as int),
                        before.len() <= caps@.len(),
                    ensures
                        spec_caps_in_param(data@, p2 as int, end) == caps_view(caps@).skip(
                            before.len() as int,
                        ),
                        before == caps_view(caps@).take(before.len() as int),
                        before.len() <= caps@.len(),
                    decreases data@.len() - cap_pos,
                {
                    let code = data[cap_pos];
                    let cap_len = data[cap_pos + 1] as usize;
                    if cap_len > data.len() - cap_pos - 2 {
                        assert(caps_view(caps@).skip(before.len() as int) + Seq::<CapView>::empty()
                            =~= caps_view(caps@).skip(before.len() as int));
                        break;
                    }
                    let cap_end = cap_pos + 2 + cap_len;
                    let cap = Capability::parse_one(code, &data[cap_pos + 2..cap_end]);
                    proof {
                        assert(caps_view(caps@.push(cap)) =~= caps_view(caps@).push(cap@));
                        assert(caps_view(caps@.push(cap)).skip(before.len() as int) =~= caps_view(
                            caps@,
                        ).skip(before.len() as int).push(cap@));
                        assert(caps_view(caps@.push(cap)).take(before.len() as int) =~= caps_view(
                            caps@,
                        ).take(before.len() as int));
                    }
                    caps.push(cap);
                    cap_pos = cap_end;
                }
                assert(caps_view(caps@) =~= before + caps_view(caps@).skip(before.len() as int));
            }
            assert(caps_view(caps@) =~= before + (if param_type == 2 {
                spec_caps_in_param(data@, p2 as int, end)
            } else {
                Seq::<CapView>::empty()
            }));
            if !fits {
                assert(caps_view(caps@) + Seq::<CapView>::empty() =~= caps_view(caps@));
                return caps;
            }
            pos = p2 + param_len;
        }
        assert(caps_view(caps@) + Seq::<CapView>::empty() =~= caps_view(caps@));
        caps
    }

    /// Parse capabilities from already-decoded optional parameters (from a parsed OPEN).
    pub fn parse_from_open_params(params: &[OptionalParam]) -> (r: Vec<Capability>)
        ensures
            caps_view(r@) == spec_parse_opt_params(params_bytes(params_view(params@)), 0),
    {
        let ghost pv = params_view(params@);
        let mut raw: Vec<u8> = Vec::new();
        let mut i: usize = 0;
        assert(pv.take(0) =~= Seq::<ParamView>::empty());
        while i < params.len()
            invariant
                i <= params@.len(),
                pv == params_view(params@),
                raw@ == params_bytes(pv.take(i as int)),
            decreases params@.len() - i,
        {
            let p = &params[i];
            raw.push(p.param_type);
            raw.push((p.value.len() % 256) as u8);
            push_slice(&mut raw, p.value.as_slice());
            proof {
                lemma_flat_map_take(pv, i as int, |q: ParamView| crate::message::open::param_bytes(q));
                assert(pv[i as int] == p@);
                assert(raw@ =~= params_bytes(pv.take(i + 1)));
            }
            i = i + 1;
        }
        assert(pv.take(i as int) =~= pv);
        Self::parse_optional_params(raw.as_slice())
    }

    /// The text an operator reads, such as `RouteRefresh` or `4-byte-ASN(65000)`.
    pub fn to_string(&self) -> (r: String)
        ensures
            r@ == match self@ {
                CapView::MultiProtocol { afi, safi } => "MultiProtocol(AFI="@ + spec_decimal(
                    afi as nat,
                ) + ", SAFI="@ + spec_decimal(safi as nat) + ")"@,
                CapView::RouteRefresh => "RouteRefresh"@,
                CapView::GracefulRestart { restart_time, .. } => "GracefulRestart(time="@
                    + spec_decimal(restart_time as nat) + "s)"@,
                CapView::FourOctetAsn { asn } => "4-byte-ASN("@ + spec_decimal(asn as nat) + ")"@,
                CapView::Unknown { code, .. } => "Unknown(code="@ + spec_decimal(code as nat)
                    + ")"@,
            },
    {
        let mut s = String::new();
        match self {
            Capability::MultiProtocol { afi, safi } => {
                push_str(&mut s, "MultiProtocol(AFI=");
                push_decimal(&mut s, *afi as u64);
                push_str(&mut s, ", SAFI=");
                push_decimal(&mut s, *safi as u64);
                push_str(&mut s, ")");
            },
            Capability::RouteRefresh => {
                push_str(&mut s, "RouteRefresh");
            },
            Capability::GracefulRestart { restart_time, .. } => {
                push_str(&mut s, "GracefulRestart(time=");
                push_decimal(&mut s, *restart_time as u64);
                push_str(&mut s, "s)");
            },
            Capability::FourOctetAsn { asn } => {
                push_str(&mut s, "4-byte-ASN(");
                push_decimal(&mut s, *asn as u64);
                push_str(&mut s, ")");
            },
            Capability::Unknown { code, .. } => {
                push_str(&mut s, "Unknown(code=");
                push_decimal(&mut s, *code as u64);
                push_str(&mut s, ")");
            },
        }
        assert(s@ =~= match self@ {
            CapView::MultiProtocol { afi, safi } => "MultiProtocol(AFI="@ + spec_decimal(afi as nat)
                + ", SAFI="@ + spec_decimal(safi as nat) + ")"@,
            CapView::RouteRefresh => "RouteRefresh"@,
            CapView::GracefulRestart { restart_time, .. } => "GracefulRestart(time="@
                + spec_decimal(restart_time as nat) + "s)"@,
            CapView::FourOctetAsn { asn } => "4-byte-ASN("@ + spec_decimal(asn as nat) + ")"@,
            CapView::Unknown { code, .. } => "Unknown(code="@ + spec_decimal(code as nat) + ")"@,
        });
        s
    }
}

/// Reading a capability back from its code and value gives the capability.
pub proof fn lemma_cap_roundtrip(c: CapView)
    requires
        cap_wire_ok(c),
    ensures
        spec_parse_one(spec_cap_code(c), cap_value(c)) == c,
        cap_value(c).len() <= 255,
{
    match c {
        CapView::MultiProtocol { afi, safi } => {
            lemma_u16_roundtrip(afi);
            let v = cap_value(c);
            assert(v.subrange(0, 2) =~= u16_bytes(afi));
        },
        CapView::RouteRefresh => {},
        CapView::GracefulRestart { restart_time, flags } => {
            let w = gr_word(restart_time, flags);
            lemma_u16_roundtrip(w);
            let v = cap_value(c);
            assert(v.subrange(0, 2) =~= u16_bytes(w));
            assert(w as nat == flags as nat * 4096 + restart_time as nat);
            assert((w as nat) / 4096 == flags as nat && (w as nat) % 4096 == restart_time as nat)
                by (nonlinear_arith)
                requires
                    w as nat == flags as nat * 4096 + restart_time as nat,
                    restart_time < 4096,
            ;
        },
        CapView::FourOctetAsn { asn } => {
            lemma_u32_roundtrip(asn);
            let v = cap_value(c);
            assert(v.subrange(0, 4) =~= u32_bytes(asn));
        },
        CapView::Unknown { .. } => {},
    }
}

/// Reading a capability parameter that holds `cs` after `prefix` gives `cs`.
pub proof fn lemma_caps_in_param_roundtrip(prefix: Seq<u8>, cs: Seq<CapView>)
    requires
        forall|i: int| 0 <= i < cs.len() ==> cap_wire_ok(#[trigger] cs[i]),
    ensures
        spec_caps_in_param(
            prefix + caps_bytes(cs),
            prefix.len() as int,
            (prefix + caps_bytes(cs)).len() as int,
        ) == cs,
    decreases cs.len(),
{
    let data = prefix + caps_bytes(cs);
    let pos = prefix.len() as int;
    if cs.len() == 0 {
        assert(caps_bytes(cs) =~= Seq::<u8>::empty());
        assert(cs =~= Seq::<CapView>::empty());
    } else {
        let c = cs[0];
        let tail = cs.skip(1);
        assert(cs =~= seq![c] + tail);
        lemma_flat_map_cons(c, tail, |x: CapView| cap_bytes(x));
        lemma_cap_roundtrip(c);
        let v = cap_value(c);
        assert(caps_bytes(cs) == cap_bytes(c) + caps_bytes(tail));
        let prefix2 = prefix + cap_bytes(c);
        assert(data =~= prefix2 + caps_bytes(tail));
        assert(data[pos] == spec_cap_code(c));
        assert(data[pos + 1] as int == v.len());
        assert(data.subrange(pos + 2, pos + 2 + v.len()) =~= v);
        assert forall|i: int| 0 <= i < tail.len() implies cap_wire_ok(#[trigger] tail[i]) by {
            assert(tail[i] == cs[i + 1]);
        }
        lemma_caps_in_param_roundtrip(prefix2, tail);
        assert(prefix2.len() == pos + 2 + v.len());
        assert(seq![c] + tail =~= cs);
    }
}

/// Building the capability block for `cs` and parsing its parameters (the
/// octets after the block's length) gives `cs` back.
pub proof fn lemma_build_parse_roundtrip(cs: Seq<CapView>)
    requires
        forall|i: int| 0 <= i < cs.len() ==> cap_wire_ok(#[trigger] cs[i]),
        caps_bytes(cs).len() <= 253,
    ensures
        spec_parse_opt_params(spec_build_capabilities(cs).skip(1), 0) == cs,
{
    let cb = caps_bytes(cs);
    let block = spec_build_capabilities(cs);
    if cb.len() == 0 {
        assert(block.skip(1) =~= Seq::<u8>::empty());
        if cs.len() > 0 {
            lemma_flat_map_cons(cs[0], cs.skip(1), |x: CapView| cap_bytes(x));
            assert(cs =~= seq![cs[0]] + cs.skip(1));
        }
        assert(cs =~= Seq::<CapView>::empty());
    } else {
        let data = block.skip(1);
        assert(data =~= seq![2u8, cb.len() as u8] + cb);
        lemma_caps_in_param_roundtrip(seq![2u8, cb.len() as u8], cs);
        assert(spec_parse_opt_params(data, data.len() as int) =~= Seq::<CapView>::empty());
        assert(cs + Seq::<CapView>::empty() =~= cs);
    }
}

} // verus!
