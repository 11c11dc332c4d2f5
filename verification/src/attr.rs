//! BGP path attributes (RFC 4271 §4.3, §5; RFC 1997; RFC 4456): the model,
//! the parser and the serializer.

use crate::buffer::{bytes_mut_contents, bytes_mut_from_slice};
use crate::wire::{
    be_value, flat_map_bytes, lemma_flat_map_cons, lemma_flat_map_take, lemma_u16_roundtrip,
    lemma_u32_roundtrip, push_slice, push_u16, push_u32, read_u16, read_u32, u16_bytes,
    u32_bytes,
};
use bytes::BytesMut;
use vstd::prelude::*;

verus! {

/// BGP path attribute type codes (RFC 4271 §5).
#[derive(Debug, Clone, Copy, PartialEq, Eq, Structural)]
pub enum AttrType {
    Origin,
    AsPath,
    NextHop,
    MultiExitDisc,
    LocalPref,
    AtomicAggregate,
    Aggregator,
    Communities,
    OriginatorId,
    ClusterId,
    MpReachNlri,
    MpUnreachNlri,
}

impl AttrType {
    /// The wire code of this attribute type.
    pub fn code(&self) -> (r: u8)
        ensures
            r == match *self {
                AttrType::Origin => 1u8,
                AttrType::AsPath => 2,
                AttrType::NextHop => 3,
                AttrType::MultiExitDisc => 4,
                AttrType::LocalPref => 5,
                AttrType::AtomicAggregate => 6,
                AttrType::Aggregator => 7,
                AttrType::Communities => 8,
                AttrType::OriginatorId => 9,
                AttrType::ClusterId => 10,
                AttrType::MpReachNlri => 14,
                AttrType::MpUnreachNlri => 15,
            },
    {
        match self {
            AttrType::Origin => 1,
            AttrType::AsPath => 2,
            AttrType::NextHop => 3,
            AttrType::MultiExitDisc => 4,
            AttrType::LocalPref => 5,
            AttrType::AtomicAggregate => 6,
            AttrType::Aggregator => 7,
            AttrType::Communities => 8,
            AttrType::OriginatorId => 9,
            AttrType::ClusterId => 10,
            AttrType::MpReachNlri => 14,
            AttrType::MpUnreachNlri => 15,
        }
    }
}

/// ORIGIN attribute values (RFC 4271 §5.1.1).
#[derive(Debug, Clone, Copy, PartialEq, Eq, Structural)]
pub enum Origin {
    Igp,
    Egp,
    Incomplete,
}

/// The wire value of an ORIGIN.
pub open spec fn spec_origin_code(o: Origin) -> u8 {
    match o {
        Origin::Igp => 0,
        Origin::Egp => 1,
        Origin::Incomplete => 2,
    }
}

/// The ORIGIN with wire value `v`, if any.
pub open spec fn spec_origin_of(v: u8) -> Option<Origin> {
    if v == 0 {
        Some(Origin::Igp)
    } else if v == 1 {
        Some(Origin::Egp)
    } else if v == 2 {
        Some(Origin::Incomplete)
    } else {
        None
    }
}

impl Origin {
    /// The wire value of this ORIGIN.
    pub fn code(&self) -> (r: u8)
        ensures
            r == spec_origin_code(*self),
    {
        match self {
            Origin::Igp => 0,
            Origin::Egp => 1,
            Origin::Incomplete => 2,
        }
    }

    /// The ORIGIN with wire value `v`; any other value is an error.
    pub fn from_u8(v: u8) -> (r: Result<Origin, AttrError>)
        ensures
            match spec_origin_of(v) {
                Some(o) => r == Ok::<Origin, AttrError>(o),
                None => r matches Err(AttrError::InvalidOrigin(x)) && x == v,
            },
    {
        if v == 0 {
            Ok(Origin::Igp)
        } else if v == 1 {
            Ok(Origin::Egp)
        } else if v == 2 {
            Ok(Origin::Incomplete)
        } else {
            Err(AttrError::InvalidOrigin(v))
        }
    }

    /// The name an operator reads: `IGP`, `EGP` or `Incomplete`.
    pub fn name(&self) -> (r: &'static str)
        ensures
            r@ == match *self {
                Origin::Igp => "IGP"@,
                Origin::Egp => "EGP"@,
                Origin::Incomplete => "Incomplete"@,
            },
    {
        match self {
            Origin::Igp => "IGP",
            Origin::Egp => "EGP",
            Origin::Incomplete => "Incomplete",
        }
    }
}

/// AS_PATH segments.
#[derive(Debug, Clone, PartialEq, Eq)]
pub enum AsPathSegment {
    AsSet(Vec<u32>),
    AsSequence(Vec<u32>),
}

/// An AS_PATH segment with its numbers as a sequence.
pub enum SegmentView {
    AsSet(Seq<u32>),
    AsSequence(Seq<u32>),
}

impl SegmentView {
    pub open spec fn asns(self) -> Seq<u32> {
        match self {
            SegmentView::AsSet(v) => v,
            SegmentView::AsSequence(v) => v,
        }
    }
}

impl View for AsPathSegment {
    type V = SegmentView;

    open spec fn view(&self) -> SegmentView {
        match self {
            AsPathSegment::AsSet(v) => SegmentView::AsSet(v@),
            AsPathSegment::AsSequence(v) => SegmentView::AsSequence(v@),
        }
    }
}

pub(crate) fn copy_u32s(v: &Vec<u32>) -> (r: Vec<u32>)
    ensures
        r@ == v@,
{
    let mut out: Vec<u32> = Vec::new();
    let mut i: usize = 0;
    while i < v.len()
        invariant
            i <= v@.len(),
            out@ == v@.take(i as int),
        decreases v@.len() - i,
    {
        out.push(v[i]);
        i = i + 1;
        assert(out@ =~= v@.take(i as int));
    }
    assert(v@.take(v@.len() as int) =~= v@);
    out
}

impl AsPathSegment {
    pub fn len(&self) -> (r: usize)
        ensures
            r == self@.asns().len(),
    {
        match self {
            AsPathSegment::AsSet(v) => v.len(),
            AsPathSegment::AsSequence(v) => v.len(),
        }
    }

    pub fn is_empty(&self) -> (r: bool)
        ensures
            r == (self@.asns().len() == 0),
    {
        self.len() == 0
    }

    /// The AS numbers of this segment, in order.
    pub fn as_numbers(&self) -> (r: &[u32])
        ensures
            r@ == self@.asns(),
    {
        match self {
            AsPathSegment::AsSet(v) => v.as_slice(),
            AsPathSegment::AsSequence(v) => v.as_slice(),
        }
    }

    /// A copy of this segment.
    pub fn duplicate(&self) -> (r: Self)
        ensures
            r@ == self@,
    {
        match self {
            AsPathSegment::AsSet(v) => AsPathSegment::AsSet(copy_u32s(v)),
            AsPathSegment::AsSequence(v) => AsPathSegment::AsSequence(copy_u32s(v)),
        }
    }
}

/// Path attribute errors.
#[derive(Debug)]
pub enum AttrError {
    TooShort,
    InvalidOrigin(u8),
    InvalidAsPathSegment(u8),
    Parse(String),
}

/// An attribute error with its text as a sequence of characters.
pub enum AttrErrorView {
    TooShort,
    InvalidOrigin(u8),
    InvalidAsPathSegment(u8),
    Parse(Seq<char>),
}

impl View for AttrError {
    type V = AttrErrorView;

    open spec fn view(&self) -> AttrErrorView {
        match self {
            AttrError::TooShort => AttrErrorView::TooShort,
            AttrError::InvalidOrigin(v) => AttrErrorView::InvalidOrigin(*v),
            AttrError::InvalidAsPathSegment(v) => AttrErrorView::InvalidAsPathSegment(*v),
            AttrError::Parse(s) => AttrErrorView::Parse(s@),
        }
    }
}

/// A BGP community value (RFC 1997).
#[derive(Debug, Clone, Copy, PartialEq, Eq, Hash, Structural)]
pub struct Community(pub u32);

impl Community {
    /// The well-known NO_EXPORT community value.
    pub const NO_EXPORT: u32 = 0xFFFF_FF01;

    /// The well-known NO_ADVERTISE community value.
    pub const NO_ADVERTISE: u32 = 0xFFFF_FF02;

    /// The well-known NO_EXPORT_SUBCONFED community value.
    pub const NO_EXPORT_SUBCONFED: u32 = 0xFFFF_FF03;

    /// The high 16 bits: the AS part.
    pub fn asn(&self) -> (r: u16)
        ensures
            r as nat == self.0 as nat / 65536,
    {
        (self.0 / 65536) as u16
    }

    /// The low 16 bits: the value part.
    pub fn value(&self) -> (r: u16)
        ensures
            r as nat == self.0 as nat % 65536,
    {
        (self.0 % 65536) as u16
    }

    /// The text an operator reads: the well-known names, else `asn:value`.
    pub fn to_string(&self) -> (r: String)
        ensures
            r@ == spec_community_text(*self),
    {
        if self.0 == Community::NO_EXPORT {
            return String::from_str("no-export");
        }
        if self.0 == Community::NO_ADVERTISE {
            return String::from_str("no-advertise");
        }
        if self.0 == Community::NO_EXPORT_SUBCONFED {
            return String::from_str("no-export-subconfed");
        }
        proof {
            reveal_strlit(":");
        }
        let mut s = crate::text::decimal(self.asn() as u64);
        crate::text::push_str(&mut s, ":");
        crate::text::push_decimal(&mut s, self.value() as u64);
        assert(s@ =~= spec_community_text(*self));
        s
    }
}

/// The text of a community: the well-known names, else `asn:value`.
pub open spec fn spec_community_text(c: Community) -> Seq<char> {
    if c.0 == Community::NO_EXPORT {
        "no-export"@
    } else if c.0 == Community::NO_ADVERTISE {
        "no-advertise"@
    } else if c.0 == Community::NO_EXPORT_SUBCONFED {
        "no-export-subconfed"@
    } else {
        crate::text::spec_decimal(c.0 as nat / 65536) + seq![':'] + crate::text::spec_decimal(
            c.0 as nat % 65536,
        )
    }
}

/// Raw unknown attribute, kept for pass-through.
#[derive(Debug, Clone)]
pub struct RawAttribute {
    pub flags: u8,
    pub type_code: u8,
    pub value: Vec<u8>,
}

/// An unknown attribute with its value as a sequence.
pub struct RawView {
    pub flags: u8,
    pub type_code: u8,
    pub value: Seq<u8>,
}

impl View for RawAttribute {
    type V = RawView;

    open spec fn view(&self) -> RawView {
        RawView { flags: self.flags, type_code: self.type_code, value: self.value@ }
    }
}

/// Parsed BGP path attributes. Addresses are IPv4 addresses as 32-bit numbers.
#[derive(Debug, Clone)]
pub struct PathAttributes {
    pub origin: Option<Origin>,
    pub as_path: Vec<AsPathSegment>,
    pub next_hop: Option<u32>,
    pub multi_exit_disc: Option<u32>,
    pub local_pref: Option<u32>,
    pub atomic_aggregate: bool,
    pub aggregator: Option<(u16, u32)>,
    pub communities: Vec<Community>,
    pub originator_id: Option<u32>,
    pub cluster_list: Vec<u32>,
    /// Unknown attributes stored as raw bytes for pass-through.
    pub unknown: Vec<RawAttribute>,
}

/// Path attributes with every list as a sequence of views.
#[verifier::ext_equal]
pub struct AttrsView {
    pub origin: Option<Origin>,
    pub as_path: Seq<SegmentView>,
    pub next_hop: Option<u32>,
    pub multi_exit_disc: Option<u32>,
    pub local_pref: Option<u32>,
    pub atomic_aggregate: bool,
    pub aggregator: Option<(u16, u32)>,
    pub communities: Seq<Community>,
    pub originator_id: Option<u32>,
    pub cluster_list: Seq<u32>,
    pub unknown: Seq<RawView>,
}

impl View for PathAttributes {
    type V = AttrsView;

    open spec fn view(&self) -> AttrsView {
        AttrsView {
            origin: self.origin,
            as_path: self.as_path@.map_values(|s: AsPathSegment| s@),
            next_hop: self.next_hop,
            multi_exit_disc: self.multi_exit_disc,
            local_pref: self.local_pref,
            atomic_aggregate: self.atomic_aggregate,
            aggregator: self.aggregator,
            communities: self.communities@,
            originator_id: self.originator_id,
            cluster_list: self.cluster_list@,
            unknown: self.unknown@.map_values(|r: RawAttribute| r@),
        }
    }
}

/// Attributes with nothing set.
pub open spec fn empty_attrs() -> AttrsView {
    AttrsView {
        origin: None,
        as_path: Seq::empty(),
        next_hop: None,
        multi_exit_disc: None,
        local_pref: None,
        atomic_aggregate: false,
        aggregator: None,
        communities: Seq::empty(),
        originator_id: None,
        cluster_list: Seq::empty(),
        unknown: Seq::empty(),
    }
}

/// The 32-bit numbers at the front of `s`, four octets each; a trailing
/// remainder of fewer than four octets is ignored.
pub open spec fn spec_parse_u32s(s: Seq<u8>) -> Seq<u32>
    decreases s.len(),
{
    if s.len() < 4 {
        Seq::empty()
    } else {
        seq![be_value(s.subrange(0, 4)) as u32] + spec_parse_u32s(s.skip(4))
    }
}

/// What parsing an AS_PATH value gives. A trailing single octet is ignored.
pub open spec fn spec_parse_segments(s: Seq<u8>) -> Result<Seq<SegmentView>, AttrErrorView>
    decreases s.len(),
{
    if s.len() < 2 {
        Ok(Seq::empty())
    } else {
        let t = s[0];
        let n = s[1] as int;
        if s.len() - 2 < 4 * n {
            Err(AttrErrorView::TooShort)
        } else {
            let asns = spec_parse_u32s(s.subrange(2, 2 + 4 * n));
            if t != 1 && t != 2 {
                Err(AttrErrorView::InvalidAsPathSegment(t))
            } else {
                let seg = if t == 1 {
                    SegmentView::AsSet(asns)
                } else {
                    SegmentView::AsSequence(asns)
                };
                match spec_parse_segments(s.skip(2 + 4 * n)) {
                    Ok(rest) => Ok(seq![seg] + rest),
                    Err(e) => Err(e),
                }
            }
        }
    }
}

/// The effect of one attribute (flags, type code, value) on the attributes
/// parsed so far.
pub open spec fn spec_apply_attr(acc: AttrsView, flags: u8, tc: u8, v: Seq<u8>) -> Result<
    AttrsView,
    AttrErrorView,
> {
    if tc == 1 {
        if v.len() == 0 {
            Err(AttrErrorView::TooShort)
        } else {
            match spec_origin_of(v[0]) {
                Some(o) => Ok(AttrsView { origin: Some(o), ..acc }),
                None => Err(AttrErrorView::InvalidOrigin(v[0])),
            }
        }
    } else if tc == 2 {
        match spec_parse_segments(v) {
            Ok(segs) => Ok(AttrsView { as_path: acc.as_path + segs, ..acc }),
            Err(e) => Err(e),
        }
    } else if tc == 3 || tc == 4 || tc == 5 || tc == 9 {
        if v.len() < 4 {
            Err(AttrErrorView::TooShort)
        } else {
            let x = be_value(v.subrange(0, 4)) as u32;
            if tc == 3 {
                Ok(AttrsView { next_hop: Some(x), ..acc })
            } else if tc == 4 {
                Ok(AttrsView { multi_exit_disc: Some(x), ..acc })
            } else if tc == 5 {
                Ok(AttrsView { local_pref: Some(x), ..acc })
            } else {
                Ok(AttrsView { originator_id: Some(x), ..acc })
            }
        }
    } else if tc == 6 {
        Ok(AttrsView { atomic_aggregate: true, ..acc })
    } else if tc == 7 {
        if v.len() < 6 {
            Err(AttrErrorView::TooShort)
        } else {
            Ok(
                AttrsView {
                    aggregator: Some(
                        (be_value(v.subrange(0, 2)) as u16, be_value(v.subrange(2, 6)) as u32),
                    ),
                    ..acc
                },
            )
        }
    } else if tc == 8 {
        Ok(
            AttrsView {
                communities: acc.communities + spec_parse_u32s(v).map_values(|x: u32| Community(x)),
                ..acc
            },
        )
    } else if tc == 10 {
        Ok(AttrsView { cluster_list: acc.cluster_list + spec_parse_u32s(v), ..acc })
    } else {
        Ok(
            AttrsView {
                unknown: acc.unknown.push(RawView { flags, type_code: tc, value: v }),
                ..acc
            },
        )
    }
}

/// Whether an attribute with these flags carries a two-octet length.
pub open spec fn has_extended_len(flags: u8) -> bool {
    flags & 0x10u8 != 0
}

/// What parsing the attribute run `s` gives, on top of `acc`. A trailing
/// remainder of fewer than three octets is ignored.
#[verifier::opaque]
pub open spec fn spec_parse_attrs_from(s: Seq<u8>, acc: AttrsView) -> Result<
    AttrsView,
    AttrErrorView,
>
    decreases s.len(),
{
    if s.len() < 3 {
        Ok(acc)
    } else {
        let flags = s[0];
        let tc = s[1];
        let ext = has_extended_len(flags);
        let hl: int = if ext {
            4
        } else {
            3
        };
        if ext && s.len() < 4 {
            Err(AttrErrorView::TooShort)
        } else {
            let len: int = if ext {
                be_value(s.subrange(2, 4)) as int
            } else {
                s[2] as int
            };
            if s.len() - hl < len {
                Err(AttrErrorView::TooShort)
            } else {
                match spec_apply_attr(acc, flags, tc, s.subrange(hl, hl + len)) {
                    Ok(a2) => spec_parse_attrs_from(s.skip(hl + len), a2),
                    Err(e) => Err(e),
                }
            }
        }
    }
}

/// What parsing a whole attribute section gives.
pub open spec fn spec_parse_attrs(s: Seq<u8>) -> Result<AttrsView, AttrErrorView> {
    spec_parse_attrs_from(s, empty_attrs())
}

/// Reads the 32-bit numbers that fill `v` (a remainder under four octets is ignored).
fn parse_u32s(v: &[u8]) -> (r: Vec<u32>)
    ensures
        r@ == spec_parse_u32s(v@),
{
    let mut out: Vec<u32> = Vec::new();
    let mut pos: usize = 0;
    assert(v@.skip(0) =~= v@);
    while v.len() - pos >= 4
        invariant
            pos <= v@.len(),
            spec_parse_u32s(v@) == out@ + spec_parse_u32s(v@.skip(pos as int)),
        decreases v@.len() - pos,
    {
        let x = read_u32(v, pos);
        proof {
            let rest = v@.skip(pos as int);
            assert(rest.subrange(0, 4) =~= v@.subrange(pos as int, pos + 4));
            assert(rest.skip(4) =~= v@.skip(pos + 4));
            assert(out@ + (seq![x] + spec_parse_u32s(v@.skip(pos + 4))) =~= out@.push(x)
                + spec_parse_u32s(v@.skip(pos + 4)));
        }
        out.push(x);
        pos = pos + 4;
    }
    assert(out@ + Seq::<u32>::empty() =~= out@);
    out
}

/// Parses an AS_PATH value.
fn parse_segments(v: &[u8]) -> (r: Result<Vec<AsPathSegment>, AttrError>)
    ensures
        match r {
            Ok(segs) => spec_parse_segments(v@) == Ok::<Seq<SegmentView>, AttrErrorView>(
                segs@.map_values(|s: AsPathSegment| s@),
            ),
            Err(e) => spec_parse_segments(v@) == Err::<Seq<SegmentView>, AttrErrorView>(e@),
        },
{
    let mut out: Vec<AsPathSegment> = Vec::new();
    let mut pos: usize = 0;
    assert(v@.skip(0) =~= v@);
    while v.len() - pos >= 2
        invariant
            pos <= v@.len(),
            spec_parse_segments(v@) == match spec_parse_segments(v@.skip(pos as int)) {
                Ok(rest) => Ok::<Seq<SegmentView>, AttrErrorView>(
                    out@.map_values(|s: AsPathSegment| s@) + rest,
                ),
                Err(e) => Err(e),
            },
        decreases v@.len() - pos,
    {
        let ghost rest = v@.skip(pos as int);
        let seg_type = v[pos];
        let seg_len = v[pos + 1] as usize;
        if v.len() - pos - 2 < seg_len * 4 {
            return Err(AttrError::TooShort);
        }
        let asns = parse_u32s(&v[pos + 2..pos + 2 + seg_len * 4]);
        proof {
            assert(rest.subrange(2, 2 + 4 * seg_len) =~= v@.subrange(
                pos + 2,
                pos + 2 + seg_len * 4,
            ));
        }
        if seg_type != 1 && seg_type != 2 {
            return Err(AttrError::InvalidAsPathSegment(seg_type));
        }
        let seg = if seg_type == 1 {
            AsPathSegment::AsSet(asns)
        } else {
            AsPathSegment::AsSequence(asns)
        };
        proof {
            assert(rest.skip(2 + 4 * seg_len) =~= v@.skip(pos + 2 + seg_len * 4));
            match spec_parse_segments(v@.skip(pos + 2 + seg_len * 4)) {
                Ok(tail) => {
                    assert(out@.push(seg).map_values(|s: AsPathSegment| s@) =~= out@.map_values(
                        |s: AsPathSegment| s@,
                    ).push(seg@));
                    assert(out@.map_values(|s: AsPathSegment| s@) + (seq![seg@] + tail)
                        =~= out@.map_values(|s: AsPathSegment| s@).push(seg@) + tail);
                },
                Err(e) => {},
            }
        }
        out.push(seg);
        pos = pos + 2 + seg_len * 4;
    }
    assert(out@.map_values(|s: AsPathSegment| s@) + Seq::<SegmentView>::empty() =~= out@.map_values(
        |s: AsPathSegment| s@,
    ));
    Ok(out)
}


/// Mapping over a sequence with one more element at the end.
pub proof fn lemma_map_push<T, U>(s: Seq<T>, x: T, f: spec_fn(T) -> U)
    ensures
        s.push(x).map_values(f) == s.map_values(f).push(f(x)),
{
    assert(s.push(x).map_values(f) =~= s.map_values(f).push(f(x)));
}

fn copy_bytes(v: &[u8]) -> (r: Vec<u8>)
    ensures
        r@ == v@,
{
    let mut out: Vec<u8> = Vec::new();
    push_slice(&mut out, v);
    assert(out@ =~= v@);
    out
}

impl RawAttribute {
    /// A copy of this attribute.
    pub fn duplicate(&self) -> (r: Self)
        ensures
            r@ == self@,
    {
        RawAttribute {
            flags: self.flags,
            type_code: self.type_code,
            value: copy_bytes(self.value.as_slice()),
        }
    }
}

/// Applies one attribute to the attributes parsed so far.
fn apply_attr(acc: &mut PathAttributes, flags: u8, tc: u8, v: &[u8]) -> (r: Result<(), AttrError>)
    ensures
        match spec_apply_attr(old(acc)@, flags, tc, v@) {
            Ok(a2) => r is Ok && final(acc)@ == a2,
            Err(e) => r matches Err(x) && x@ == e,
        },
{
    let ghost a0 = acc@;
    if tc == 1 {
        if v.len() == 0 {
            return Err(AttrError::TooShort);
        }
        let o = Origin::from_u8(v[0])?;
        acc.origin = Some(o);
        assert(acc@ =~= AttrsView { origin: Some(o), ..a0 });
    } else if tc == 2 {
        let segs = parse_segments(v)?;
        let ghost sv = segs@.map_values(|s: AsPathSegment| s@);
        let mut i: usize = 0;
        assert(a0.as_path + sv.take(0) =~= a0.as_path);
        assert(acc@ =~= AttrsView { as_path: a0.as_path + sv.take(0), ..a0 });
        while i < segs.len()
            invariant
                i <= segs@.len(),
                sv == segs@.map_values(|s: AsPathSegment| s@),
                acc@ == (AttrsView { as_path: a0.as_path + sv.take(i as int), ..a0 }),
            decreases segs@.len() - i,
        {
            let d = segs[i].duplicate();
            proof {
                lemma_map_push(acc.as_path@, d, |s: AsPathSegment| s@);
                assert(sv.take(i + 1) =~= sv.take(i as int).push(sv[i as int]));
                assert(a0.as_path + sv.take(i + 1) =~= (a0.as_path + sv.take(i as int)).push(d@));
            }
            acc.as_path.push(d);
            i = i + 1;
            assert(acc@ =~= AttrsView { as_path: a0.as_path + sv.take(i as int), ..a0 });
        }
        assert(sv.take(segs@.len() as int) =~= sv);
    } else if tc == 3 || tc == 4 || tc == 5 || tc == 9 {
        if v.len() < 4 {
            return Err(AttrError::TooShort);
        }
        let x = read_u32(v, 0);
        if tc == 3 {
            acc.next_hop = Some(x);
            assert(acc@ =~= AttrsView { next_hop: Some(x), ..a0 });
        } else if tc == 4 {
            acc.multi_exit_disc = Some(x);
            assert(acc@ =~= AttrsView { multi_exit_disc: Some(x), ..a0 });
        } else if tc == 5 {
            acc.local_pref = Some(x);
            assert(acc@ =~= AttrsView { local_pref: Some(x), ..a0 });
        } else {
            acc.originator_id = Some(x);
            assert(acc@ =~= AttrsView { originator_id: Some(x), ..a0 });
        }
    } else if tc == 6 {
        acc.atomic_aggregate = true;
        assert(acc@ =~= AttrsView { atomic_aggregate: true, ..a0 });
    } else if tc == 7 {
        if v.len() < 6 {
            return Err(AttrError::TooShort);
        }
        let asn = read_u16(v, 0);
        let ip = read_u32(v, 2);
        acc.aggregator = Some((asn, ip));
        assert(acc@ =~= AttrsView { aggregator: Some((asn, ip)), ..a0 });
    } else if tc == 8 {
        let xs = parse_u32s(v);
        let ghost cs = xs@.map_values(|x: u32| Community(x));
        let mut i: usize = 0;
        assert(a0.communities + cs.take(0) =~= a0.communities);
        assert(acc@ =~= AttrsView { communities: a0.communities + cs.take(0), ..a0 });
        while i < xs.len()
            invariant
                i <= xs@.len(),
                cs == xs@.map_values(|x: u32| Community(x)),
                acc@ == (AttrsView { communities: a0.communities + cs.take(i as int), ..a0 }),
            decreases xs@.len() - i,
        {
            acc.communities.push(Community(xs[i]));
            i = i + 1;
            assert(acc@ =~= AttrsView { communities: a0.communities + cs.take(i as int), ..a0 });
        }
        assert(cs.take(xs@.len() as int) =~= cs);
    } else if tc == 10 {
        let xs = parse_u32s(v);
        let mut i: usize = 0;
        assert(a0.cluster_list + xs@.take(0) =~= a0.cluster_list);
        assert(acc@ =~= AttrsView { cluster_list: a0.cluster_list + xs@.take(0), ..a0 });
        while i < xs.len()
            invariant
                i <= xs@.len(),
                acc@ == (AttrsView { cluster_list: a0.cluster_list + xs@.take(i as int), ..a0 }),
            decreases xs@.len() - i,
        {
            acc.cluster_list.push(xs[i]);
            i = i + 1;
            assert(acc@ =~= AttrsView { cluster_list: a0.cluster_list + xs@.take(i as int), ..a0 });
        }
        assert(xs@.take(xs@.len() as int) =~= xs@);
    } else {
        let raw = RawAttribute { flags, type_code: tc, value: copy_bytes(v) };
        acc.unknown.push(raw);
        assert(acc@ =~= AttrsView { unknown: a0.unknown.push(raw@), ..a0 });
    }
    Ok(())
}

/// AS_PATH length for best-path selection: each AS_SEQUENCE counts its
/// numbers, each AS_SET counts as one.
pub open spec fn spec_as_path_len(segs: Seq<SegmentView>) -> nat
    decreases segs.len(),
{
    if segs.len() == 0 {
        0
    } else {
        spec_as_path_len(segs.drop_last()) + match segs.last() {
            SegmentView::AsSet(_) => 1nat,
            SegmentView::AsSequence(v) => v.len(),
        }
    }
}

pub proof fn lemma_as_path_len_prefix(segs: Seq<SegmentView>, i: int)
    requires
        0 <= i <= segs.len(),
    ensures
        spec_as_path_len(segs.take(i)) <= spec_as_path_len(segs),
    decreases segs.len() - i,
{
    if i < segs.len() {
        lemma_as_path_len_prefix(segs, i + 1);
        assert(segs.take(i + 1).drop_last() =~= segs.take(i));
    } else {
        assert(segs.take(i) =~= segs);
    }
}

impl Default for PathAttributes {
    fn default() -> (r: Self)
        ensures
            r@ == empty_attrs(),
    {
        let r = PathAttributes {
            origin: None,
            as_path: Vec::new(),
            next_hop: None,
            multi_exit_disc: None,
            local_pref: None,
            atomic_aggregate: false,
            aggregator: None,
            communities: Vec::new(),
            originator_id: None,
            cluster_list: Vec::new(),
            unknown: Vec::new(),
        };
        assert(r@ =~= empty_attrs());
        r
    }
}

impl PathAttributes {
    /// True when no attributes are set (RFC 4724 End-of-RIB detection).
    pub fn is_empty(&self) -> (r: bool)
        ensures
            r == (self@ == empty_attrs()),
    {
        let r = self.origin.is_none() && self.as_path.len() == 0 && self.next_hop.is_none()
            && self.multi_exit_disc.is_none() && self.local_pref.is_none()
            && !self.atomic_aggregate && self.aggregator.is_none() && self.communities.len() == 0
            && self.originator_id.is_none() && self.cluster_list.len() == 0 && self.unknown.len()
            == 0;
        proof {
            if r {
                assert(self@ =~= empty_attrs());
            }
            if self@ == empty_attrs() {
                assert(self.as_path@.len() == self@.as_path.len());
                assert(self.unknown@.len() == self@.unknown.len());
            }
        }
        r
    }

    /// Parse all path attributes from a raw attribute section.
    pub fn parse(buf: &[u8]) -> (r: Result<Self, AttrError>)
        ensures
            match r {
                Ok(a) => spec_parse_attrs(buf@) == Ok::<AttrsView, AttrErrorView>(a@),
                Err(e) => spec_parse_attrs(buf@) == Err::<AttrsView, AttrErrorView>(e@),
            },
    {
        reveal(spec_parse_attrs_from);
        let mut attrs = PathAttributes::default();
        let mut pos: usize = 0;
        assert(buf@.skip(0) =~= buf@);
        while buf.len() - pos >= 3
            invariant
                pos <= buf@.len(),
                spec_parse_attrs(buf@) == spec_parse_attrs_from(buf@.skip(pos as int), attrs@),
            decreases buf@.len() - pos,
        {
            reveal(spec_parse_attrs_from);
            let ghost rest = buf@.skip(pos as int);
            let flags = buf[pos];
            let type_code = buf[pos + 1];
            let ext = flags & 0x10 != 0;
            let hl: usize = if ext {
                4
            } else {
                3
            };
            if ext && buf.len() - pos < 4 {
                return Err(AttrError::TooShort);
            }
            let length: usize = if ext {
                proof {
                    assert(rest.subrange(2, 4) =~= buf@.subrange(pos + 2, pos + 4));
                }
                read_u16(buf, pos + 2) as usize
            } else {
                buf[pos + 2] as usize
            };
            if buf.len() - pos - hl < length {
                return Err(AttrError::TooShort);
            }
            let value = &buf[pos + hl..pos + hl + length];
            proof {
                assert(value@ =~= rest.subrange(hl as int, hl + length));
                assert(rest.skip(hl + length) =~= buf@.skip(pos + hl + length));
            }
            apply_attr(&mut attrs, flags, type_code, value)?;
            pos = pos + hl + length;
        }
        Ok(attrs)
    }

    /// AS_PATH length in number of ASNs (AS_SETs count as 1).
    pub fn as_path_len(&self) -> (r: usize)
        requires
            spec_as_path_len(self@.as_path) <= usize::MAX,
        ensures
            r == spec_as_path_len(self@.as_path),
    {
        let ghost segs = self@.as_path;
        let mut sum: usize = 0;
        let mut i: usize = 0;
        assert(segs.take(0) =~= Seq::<SegmentView>::empty());
        while i < self.as_path.len()
            invariant
                i <= self.as_path@.len(),
                segs == self@.as_path,
                segs.len() == self.as_path@.len(),
                spec_as_path_len(segs) <= usize::MAX,
                sum == spec_as_path_len(segs.take(i as int)),
            decreases self.as_path@.len() - i,
        {
            proof {
                lemma_as_path_len_prefix(segs, i + 1);
                assert(segs.take(i + 1).drop_last() =~= segs.take(i as int));
                assert(segs[i as int] == self.as_path@[i as int]@);
            }
            let add = match &self.as_path[i] {
                AsPathSegment::AsSet(_) => 1,
                AsPathSegment::AsSequence(v) => v.len(),
            };
            sum = sum + add;
            i = i + 1;
        }
        assert(segs.take(i as int) =~= segs);
        sum
    }

    /// AS_PATH length in number of ASNs, or `None` when it does not fit a
    /// machine word.
    pub fn as_path_len_checked(&self) -> (r: Option<usize>)
        ensures
            match r {
                Some(n) => n == spec_as_path_len(self@.as_path),
                None => spec_as_path_len(self@.as_path) > usize::MAX,
            },
    {
        let ghost segs = self@.as_path;
        let mut sum: usize = 0;
        let mut i: usize = 0;
        assert(segs.take(0) =~= Seq::<SegmentView>::empty());
        while i < self.as_path.len()
            invariant
                i <= self.as_path@.len(),
                segs == self@.as_path,
                segs.len() == self.as_path@.len(),
                sum == spec_as_path_len(segs.take(i as int)),
            decreases self.as_path@.len() - i,
        {
            proof {
                lemma_as_path_len_prefix(segs, i + 1);
                assert(segs.take(i + 1).drop_last() =~= segs.take(i as int));
                assert(segs[i as int] == self.as_path@[i as int]@);
            }
            let add = match &self.as_path[i] {
                AsPathSegment::AsSet(_) => 1,
                AsPathSegment::AsSequence(v) => v.len(),
            };
            match sum.checked_add(add) {
                Some(t) => sum = t,
                None => return None,
            }
            i = i + 1;
        }
        assert(segs.take(i as int) =~= segs);
        Some(sum)
    }

    /// A copy of these attributes.
    pub fn duplicate(&self) -> (r: Self)
        ensures
            r@ == self@,
    {
        let mut as_path: Vec<AsPathSegment> = Vec::new();
        let mut i: usize = 0;
        while i < self.as_path.len()
            invariant
                i <= self.as_path@.len(),
                as_path@.map_values(|s: AsPathSegment| s@) == self.as_path@.take(
                    i as int,
                ).map_values(|s: AsPathSegment| s@),
            decreases self.as_path@.len() - i,
        {
            let d = self.as_path[i].duplicate();
            proof {
                lemma_map_push(as_path@, d, |s: AsPathSegment| s@);
                assert(self.as_path@.take(i + 1) =~= self.as_path@.take(i as int).push(
                    self.as_path@[i as int],
                ));
                lemma_map_push(self.as_path@.take(i as int), self.as_path@[i as int], |s: AsPathSegment| s@);
            }
            as_path.push(d);
            i = i + 1;
            assert(as_path@.map_values(|s: AsPathSegment| s@) =~= self.as_path@.take(
                i as int,
            ).map_values(|s: AsPathSegment| s@));
        }
        assert(self.as_path@.take(i as int) =~= self.as_path@);
        let mut unknown: Vec<RawAttribute> = Vec::new();
        let mut j: usize = 0;
        while j < self.unknown.len()
            invariant
                j <= self.unknown@.len(),
                unknown@.map_values(|r: RawAttribute| r@) == self.unknown@.take(
                    j as int,
                ).map_values(|r: RawAttribute| r@),
            decreases self.unknown@.len() - j,
        {
            let d = self.unknown[j].duplicate();
            proof {
                lemma_map_push(unknown@, d, |r: RawAttribute| r@);
                assert(self.unknown@.take(j + 1) =~= self.unknown@.take(j as int).push(
                    self.unknown@[j as int],
                ));
                lemma_map_push(self.unknown@.take(j as int), self.unknown@[j as int], |r: RawAttribute| r@);
            }
            unknown.push(d);
            j = j + 1;
            assert(unknown@.map_values(|r: RawAttribute| r@) =~= self.unknown@.take(
                j as int,
            ).map_values(|r: RawAttribute| r@));
        }
        assert(self.unknown@.take(j as int) =~= self.unknown@);
        let mut communities: Vec<Community> = Vec::new();
        let mut k: usize = 0;
        while k < self.communities.len()
            invariant
                k <= self.communities@.len(),
                communities@ == self.communities@.take(k as int),
            decreases self.communities@.len() - k,
        {
            communities.push(self.communities[k]);
            k = k + 1;
            assert(communities@ =~= self.communities@.take(k as int));
        }
        assert(self.communities@.take(k as int) =~= self.communities@);
        let r = PathAttributes {
            origin: self.origin,
            as_path,
            next_hop: self.next_hop,
            multi_exit_disc: self.multi_exit_disc,
            local_pref: self.local_pref,
            atomic_aggregate: self.atomic_aggregate,
            aggregator: self.aggregator,
            communities,
            originator_id: self.originator_id,
            cluster_list: copy_u32s(&self.cluster_list),
            unknown,
        };
        assert(r@ =~= self@);
        r
    }
}


/// Flag bits of a path attribute (RFC 4271 §4.3).
pub const FLAG_OPTIONAL: u8 = 0x80;

pub const FLAG_TRANSITIVE: u8 = 0x40;

pub const FLAG_EXTENDED_LEN: u8 = 0x10;

/// The flags written for an attribute whose value has `n` octets: the
/// extended-length bit is added above 255 octets.
pub open spec fn written_flags(flags: u8, n: nat) -> u8 {
    if n > 255 {
        flags | 0x10u8
    } else {
        flags
    }
}

/// The wire form of one attribute: flags, type code, length (one octet, or
/// two with the extended-length flag above 255 octets), value.
pub open spec fn attr_bytes(flags: u8, tc: u8, value: Seq<u8>) -> Seq<u8> {
    if value.len() > 255 {
        seq![flags | 0x10u8, tc] + u16_bytes((value.len() % 65536) as u16) + value
    } else {
        seq![flags, tc, value.len() as u8] + value
    }
}

/// The wire form of a run of 32-bit numbers.
pub open spec fn u32s_bytes(xs: Seq<u32>) -> Seq<u8> {
    flat_map_bytes(xs, |x: u32| u32_bytes(x))
}

/// The wire code of a segment's type.
pub open spec fn segment_type_code(s: SegmentView) -> u8 {
    match s {
        SegmentView::AsSet(_) => 1,
        SegmentView::AsSequence(_) => 2,
    }
}

/// The wire form of an AS_PATH segment; the count keeps the low 8 bits.
pub open spec fn segment_bytes(s: SegmentView) -> Seq<u8> {
    seq![segment_type_code(s), (s.asns().len() % 256) as u8] + u32s_bytes(s.asns())
}

/// The value of an AS_PATH attribute.
pub open spec fn segments_bytes(segs: Seq<SegmentView>) -> Seq<u8> {
    flat_map_bytes(segs, |s: SegmentView| segment_bytes(s))
}

/// The value of a COMMUNITIES attribute.
pub open spec fn communities_bytes(cs: Seq<Community>) -> Seq<u8> {
    u32s_bytes(cs.map_values(|c: Community| c.0))
}

/// The wire form of a pass-through attribute.
pub open spec fn raw_bytes(r: RawView) -> Seq<u8> {
    attr_bytes(r.flags, r.type_code, r.value)
}

/// `b` when `present`, nothing otherwise.
pub open spec fn when(present: bool, b: Seq<u8>) -> Seq<u8> {
    if present {
        b
    } else {
        Seq::empty()
    }
}

pub open spec fn origin_part(a: AttrsView) -> Seq<u8> {
    when(a.origin is Some, attr_bytes(0x40, 1, seq![spec_origin_code(a.origin->0)]))
}

pub open spec fn as_path_part(a: AttrsView) -> Seq<u8> {
    when(a.as_path.len() > 0, attr_bytes(0x40, 2, segments_bytes(a.as_path)))
}

pub open spec fn next_hop_part(a: AttrsView) -> Seq<u8> {
    when(a.next_hop is Some, attr_bytes(0x40, 3, u32_bytes(a.next_hop->0)))
}

pub open spec fn med_part(a: AttrsView) -> Seq<u8> {
    when(a.multi_exit_disc is Some, attr_bytes(0x80, 4, u32_bytes(a.multi_exit_disc->0)))
}

pub open spec fn local_pref_part(a: AttrsView) -> Seq<u8> {
    when(a.local_pref is Some, attr_bytes(0x40, 5, u32_bytes(a.local_pref->0)))
}

pub open spec fn atomic_part(a: AttrsView) -> Seq<u8> {
    when(a.atomic_aggregate, attr_bytes(0x40, 6, Seq::empty()))
}

pub open spec fn aggregator_part(a: AttrsView) -> Seq<u8> {
    when(
        a.aggregator is Some,
        attr_bytes(0xC0, 7, u16_bytes((a.aggregator->0).0) + u32_bytes((a.aggregator->0).1)),
    )
}

pub open spec fn communities_part(a: AttrsView) -> Seq<u8> {
    when(a.communities.len() > 0, attr_bytes(0xC0, 8, communities_bytes(a.communities)))
}

pub open spec fn originator_part(a: AttrsView) -> Seq<u8> {
    when(a.originator_id is Some, attr_bytes(0x80, 9, u32_bytes(a.originator_id->0)))
}

pub open spec fn cluster_part(a: AttrsView) -> Seq<u8> {
    when(a.cluster_list.len() > 0, attr_bytes(0x80, 10, u32s_bytes(a.cluster_list)))
}

pub open spec fn unknown_part(a: AttrsView) -> Seq<u8> {
    flat_map_bytes(a.unknown, |r: RawView| raw_bytes(r))
}

/// The wire form of a whole attribute section, in the fixed order ORIGIN,
/// AS_PATH, NEXT_HOP, MED, LOCAL_PREF, ATOMIC_AGGREGATE, AGGREGATOR,
/// COMMUNITIES, ORIGINATOR_ID, CLUSTER_LIST, then the pass-through attributes.
pub open spec fn attrs_bytes(a: AttrsView) -> Seq<u8> {
    origin_part(a) + as_path_part(a) + next_hop_part(a) + med_part(a) + local_pref_part(a)
        + atomic_part(a) + aggregator_part(a) + communities_part(a) + originator_part(a)
        + cluster_part(a) + unknown_part(a)
}

/// Attributes that their wire form carries exactly: segments of at most 255
/// numbers, values that fit a two-octet length, and pass-through attributes
/// with type codes this parser does not interpret and an extended-length flag
/// that matches their length.
pub open spec fn attrs_wire_ok(a: AttrsView) -> bool {
    &&& forall|i: int| 0 <= i < a.as_path.len() ==> (#[trigger] a.as_path[i]).asns().len() <= 255
    &&& segments_bytes(a.as_path).len() <= 65535
    &&& 4 * a.communities.len() <= 65535
    &&& 4 * a.cluster_list.len() <= 65535
    &&& forall|i: int|
        0 <= i < a.unknown.len() ==> {
            let r = #[trigger] a.unknown[i];
            &&& r.value.len() <= 65535
            &&& !(1 <= r.type_code <= 10)
            &&& has_extended_len(r.flags) == (r.value.len() > 255)
        }
}

/// Appends the wire form of one attribute.
fn write_attr(out: &mut Vec<u8>, flags: u8, type_code: u8, value: &[u8])
    ensures
        final(out)@ == old(out)@ + attr_bytes(flags, type_code, value@),
{
    let len = value.len();
    if len > 255 {
        out.push(flags | 0x10);
        out.push(type_code);
        push_u16(out, (len % 65536) as u16);
    } else {
        out.push(flags);
        out.push(type_code);
        out.push(len as u8);
    }
    push_slice(out, value);
    assert(out@ =~= old(out)@ + attr_bytes(flags, type_code, value@));
}

/// Appends a run of 32-bit numbers.
fn push_u32s(out: &mut Vec<u8>, xs: &Vec<u32>)
    ensures
        final(out)@ == old(out)@ + u32s_bytes(xs@),
{
    let mut i: usize = 0;
    assert(xs@.take(0) =~= Seq::<u32>::empty());
    assert(old(out)@ + u32s_bytes(xs@.take(0)) =~= old(out)@);
    while i < xs.len()
        invariant
            i <= xs@.len(),
            out@ == old(out)@ + u32s_bytes(xs@.take(i as int)),
        decreases xs@.len() - i,
    {
        push_u32(out, xs[i]);
        proof {
            lemma_flat_map_take(xs@, i as int, |x: u32| u32_bytes(x));
            assert(out@ =~= old(out)@ + u32s_bytes(xs@.take(i + 1)));
        }
        i = i + 1;
    }
    assert(xs@.take(xs@.len() as int) =~= xs@);
}

impl PathAttributes {
    /// Serialize all path attributes into an attribute section.
    pub fn serialize(&self) -> (r: BytesMut)
        ensures
            bytes_mut_contents(r) == attrs_bytes(self@),
    {
        let ghost a = self@;
        let mut buf: Vec<u8> = Vec::new();
        if let Some(origin) = self.origin {
            let v: Vec<u8> = vec![origin.code()];
            write_attr(&mut buf, FLAG_TRANSITIVE, 1, v.as_slice());
            assert(v@ =~= seq![spec_origin_code(a.origin->0)]);
        }
        let ghost p1 = buf@;
        if self.as_path.len() > 0 {
            let mut seg_buf: Vec<u8> = Vec::new();
            let ghost sv = a.as_path;
            let mut i: usize = 0;
            assert(sv.take(0) =~= Seq::<SegmentView>::empty());
            while i < self.as_path.len()
                invariant
                    i <= self.as_path@.len(),
                    sv == self@.as_path,
                    seg_buf@ == segments_bytes(sv.take(i as int)),
                decreases self.as_path@.len() - i,
            {
                let seg = &self.as_path[i];
                let (seg_type, asns): (u8, &Vec<u32>) = match seg {
                    AsPathSegment::AsSet(v) => (1u8, v),
                    AsPathSegment::AsSequence(v) => (2u8, v),
                };
                proof {
                    assert(sv[i as int] == seg@);
                    lemma_flat_map_take(sv, i as int, |s: SegmentView| segment_bytes(s));
                }
                let ghost before = seg_buf@;
                seg_buf.push(seg_type);
                seg_buf.push((asns.len() % 256) as u8);
                push_u32s(&mut seg_buf, asns);
                assert(seg_buf@ =~= before + segment_bytes(seg@));
                i = i + 1;
            }
            assert(sv.take(i as int) =~= sv);
            write_attr(&mut buf, FLAG_TRANSITIVE, 2, seg_buf.as_slice());
        }
        let ghost p2 = buf@;
        if let Some(nh) = self.next_hop {
            let mut v: Vec<u8> = Vec::new();
            push_u32(&mut v, nh);
            write_attr(&mut buf, FLAG_TRANSITIVE, 3, v.as_slice());
        }
        let ghost p3 = buf@;
        if let Some(med) = self.multi_exit_disc {
            let mut v: Vec<u8> = Vec::new();
            push_u32(&mut v, med);
            write_attr(&mut buf, FLAG_OPTIONAL, 4, v.as_slice());
        }
        let ghost p4 = buf@;
        if let Some(lp) = self.local_pref {
            let mut v: Vec<u8> = Vec::new();
            push_u32(&mut v, lp);
            write_attr(&mut buf, FLAG_TRANSITIVE, 5, v.as_slice());
        }
        let ghost p5 = buf@;
        if self.atomic_aggregate {
            let v: Vec<u8> = Vec::new();
            write_attr(&mut buf, FLAG_TRANSITIVE, 6, v.as_slice());
            assert(v@ =~= Seq::<u8>::empty());
        }
        let ghost p6 = buf@;
        if let Some((asn, ip)) = self.aggregator {
            let mut v: Vec<u8> = Vec::new();
            push_u16(&mut v, asn);
            push_u32(&mut v, ip);
            assert(v@ =~= u16_bytes(asn) + u32_bytes(ip));
            write_attr(&mut buf, 0xC0, 7, v.as_slice());
        }
        let ghost p7 = buf@;
        if self.communities.len() > 0 {
            let mut xs: Vec<u32> = Vec::new();
            let mut i: usize = 0;
            while i < self.communities.len()
                invariant
                    i <= self.communities@.len(),
                    xs@ == self.communities@.take(i as int).map_values(|c: Community| c.0),
                decreases self.communities@.len() - i,
            {
                xs.push(self.communities[i].0);
                i = i + 1;
                assert(xs@ =~= self.communities@.take(i as int).map_values(|c: Community| c.0));
            }
            assert(self.communities@.take(i as int) =~= self.communities@);
            let mut v: Vec<u8> = Vec::new();
            push_u32s(&mut v, &xs);
            write_attr(&mut buf, 0xC0, 8, v.as_slice());
        }
        let ghost p8 = buf@;
        if let Some(orig_id) = self.originator_id {
            let mut v: Vec<u8> = Vec::new();
            push_u32(&mut v, orig_id);
            write_attr(&mut buf, FLAG_OPTIONAL, 9, v.as_slice());
        }
        let ghost p9 = buf@;
        if self.cluster_list.len() > 0 {
            let mut v: Vec<u8> = Vec::new();
            push_u32s(&mut v, &self.cluster_list);
            write_attr(&mut buf, FLAG_OPTIONAL, 10, v.as_slice());
        }
        let ghost p10 = buf@;
        let ghost uv = a.unknown;
        let mut j: usize = 0;
        assert(uv.take(0) =~= Seq::<RawView>::empty());
        assert(p10 + flat_map_bytes(uv.take(0), |r: RawView| raw_bytes(r)) =~= p10);
        while j < self.unknown.len()
            invariant
                j <= self.unknown@.len(),
                uv == self@.unknown,
                buf@ == p10 + flat_map_bytes(uv.take(j as int), |r: RawView| raw_bytes(r)),
            decreases self.unknown@.len() - j,
        {
            let attr = &self.unknown[j];
            write_attr(&mut buf, attr.flags, attr.type_code, attr.value.as_slice());
            proof {
                assert(uv[j as int] == attr@);
                lemma_flat_map_take(uv, j as int, |r: RawView| raw_bytes(r));
                assert(buf@ =~= p10 + flat_map_bytes(uv.take(j + 1), |r: RawView| raw_bytes(r)));
            }
            j = j + 1;
        }
        assert(uv.take(j as int) =~= uv);
        assert(buf@ =~= attrs_bytes(a));
        bytes_mut_from_slice(buf.as_slice())
    }
}


/// Reading back a run of 32-bit numbers gives the numbers.
pub proof fn lemma_u32s_roundtrip(xs: Seq<u32>)
    ensures
        spec_parse_u32s(u32s_bytes(xs)) == xs,
        u32s_bytes(xs).len() == 4 * xs.len(),
    decreases xs.len(),
{
    if xs.len() > 0 {
        let x = xs[0];
        let tail = xs.skip(1);
        assert(xs =~= seq![x] + tail);
        lemma_flat_map_cons(x, tail, |y: u32| u32_bytes(y));
        lemma_u32s_roundtrip(tail);
        lemma_u32_roundtrip(x);
        let b = u32s_bytes(xs);
        assert(b == u32_bytes(x) + u32s_bytes(tail));
        assert(b.subrange(0, 4) =~= u32_bytes(x));
        assert(b.skip(4) =~= u32s_bytes(tail));
        assert(seq![x] + tail =~= xs);
    } else {
        assert(xs =~= Seq::<u32>::empty());
    }
}

/// Reading back an AS_PATH value gives the segments.
pub proof fn lemma_segments_roundtrip(segs: Seq<SegmentView>)
    requires
        forall|i: int| 0 <= i < segs.len() ==> (#[trigger] segs[i]).asns().len() <= 255,
    ensures
        spec_parse_segments(segments_bytes(segs)) == Ok::<Seq<SegmentView>, AttrErrorView>(segs),
    decreases segs.len(),
{
    if segs.len() > 0 {
        let g = segs[0];
        let tail = segs.skip(1);
        assert(segs =~= seq![g] + tail);
        lemma_flat_map_cons(g, tail, |s: SegmentView| segment_bytes(s));
        assert forall|i: int| 0 <= i < tail.len() implies (#[trigger] tail[i]).asns().len()
            <= 255 by {
            assert(tail[i] == segs[i + 1]);
        }
        lemma_segments_roundtrip(tail);
        lemma_u32s_roundtrip(g.asns());
        let b = segments_bytes(segs);
        let n = g.asns().len() as int;
        assert(b == segment_bytes(g) + segments_bytes(tail));
        assert(b[1] as int == n);
        assert(b.subrange(2, 2 + 4 * n) =~= u32s_bytes(g.asns()));
        assert(b.skip(2 + 4 * n) =~= segments_bytes(tail));
        let seg = if b[0] == 1 {
            SegmentView::AsSet(g.asns())
        } else {
            SegmentView::AsSequence(g.asns())
        };
        assert(seg == g);
        assert(seq![g] + tail =~= segs);
    } else {
        assert(segs =~= Seq::<SegmentView>::empty());
    }
}

/// Parsing one written attribute, then whatever follows.
pub proof fn lemma_parse_attr_step(f: u8, tc: u8, v: Seq<u8>, rest: Seq<u8>, acc: AttrsView)
    requires
        v.len() <= 65535,
        v.len() > 255 || !has_extended_len(f),
    ensures
        spec_parse_attrs_from(attr_bytes(f, tc, v) + rest, acc) == match spec_apply_attr(
            acc,
            written_flags(f, v.len()),
            tc,
            v,
        ) {
            Ok(a2) => spec_parse_attrs_from(rest, a2),
            Err(e) => Err(e),
        },
{
    reveal(spec_parse_attrs_from);
    let s = attr_bytes(f, tc, v) + rest;
    if v.len() > 255 {
        assert((f | 0x10u8) & 0x10u8 != 0) by (bit_vector);
        lemma_u16_roundtrip(v.len() as u16);
        assert(s.subrange(2, 4) =~= u16_bytes(v.len() as u16));
        assert(s.subrange(4, 4 + v.len() as int) =~= v);
        assert(s.skip(4 + v.len() as int) =~= rest);
    } else {
        assert(s.subrange(3, 3 + v.len() as int) =~= v);
        assert(s.skip(3 + v.len() as int) =~= rest);
    }
}

/// Whether `e` is an error that attribute parsing can name: a length that
/// runs past the bytes left, an ORIGIN value above 2, or an AS_PATH segment
/// type other than 1 and 2.
pub open spec fn attr_error_named(e: AttrErrorView) -> bool {
    match e {
        AttrErrorView::TooShort => true,
        AttrErrorView::InvalidOrigin(v) => v > 2,
        AttrErrorView::InvalidAsPathSegment(t) => t != 1 && t != 2,
        AttrErrorView::Parse(_) => false,
    }
}

/// An AS_PATH value fails only with a segment that runs past the value or
/// has a type other than 1 and 2.
pub proof fn lemma_segments_errors_named(s: Seq<u8>)
    ensures
        spec_parse_segments(s) is Err ==> attr_error_named(spec_parse_segments(s)->Err_0),
    decreases s.len(),
{
    if s.len() >= 2 {
        let n = s[1] as int;
        if s.len() - 2 >= 4 * n {
            lemma_segments_errors_named(s.skip(2 + 4 * n));
        }
    }
}

/// Law of attribute parsing, on any bytes: the parse ends, and when it
/// fails, the error is a length running past the bytes left, an ORIGIN value
/// above 2, or an AS_PATH segment type other than 1 and 2.
pub proof fn lemma_attr_errors_named(s: Seq<u8>, acc: AttrsView)
    ensures
        spec_parse_attrs_from(s, acc) is Err ==> attr_error_named(spec_parse_attrs_from(s, acc)->Err_0),
    decreases s.len(),
{
    reveal(spec_parse_attrs_from);
    if s.len() >= 3 {
        let ext = has_extended_len(s[0]);
        let hl: int = if ext { 4 } else { 3 };
        if !(ext && s.len() < 4) {
            let len: int = if ext { be_value(s.subrange(2, 4)) as int } else { s[2] as int };
            if s.len() - hl >= len {
                let v = s.subrange(hl, hl + len);
                if s[1] == 2 {
                    lemma_segments_errors_named(v);
                }
                match spec_apply_attr(acc, s[0], s[1], v) {
                    Ok(a2) => lemma_attr_errors_named(s.skip(hl + len), a2),
                    Err(e) => {},
                }
            }
        }
    }
}

/// Law of attribute parsing: an attribute whose declared length runs past
/// the bytes left is an error (`TooShort`), whatever came before it.
pub proof fn lemma_attr_overrun_too_short(s: Seq<u8>, acc: AttrsView)
    requires
        s.len() >= 3,
        has_extended_len(s[0]) ==> s.len() >= 4 && s.len() - 4 < be_value(s.subrange(2, 4)),
        !has_extended_len(s[0]) ==> s.len() - 3 < s[2],
    ensures
        spec_parse_attrs_from(s, acc) == Err::<AttrsView, AttrErrorView>(AttrErrorView::TooShort),
{
    reveal(spec_parse_attrs_from);
}

/// Law of attribute parsing: a written ORIGIN whose value is not 0, 1 or 2
/// is an error naming that value; an AS_PATH whose first segment has a type
/// other than 1 or 2 is an error naming that type; an AS_PATH whose first
/// segment announces more numbers than the value holds is `TooShort`.
/// Whatever came before, and whatever follows, does not matter.
pub proof fn lemma_attr_value_errors(f: u8, tc: u8, v: Seq<u8>, rest: Seq<u8>, acc: AttrsView)
    requires
        v.len() <= 65535,
        v.len() > 255 || !has_extended_len(f),
    ensures
        tc == 1 && v.len() >= 1 && v[0] > 2 ==> spec_parse_attrs_from(attr_bytes(f, tc, v) + rest, acc)
            == Err::<AttrsView, AttrErrorView>(AttrErrorView::InvalidOrigin(v[0])),
        tc == 2 && v.len() >= 2 && v.len() - 2 >= 4 * v[1] && v[0] != 1 && v[0] != 2
            ==> spec_parse_attrs_from(attr_bytes(f, tc, v) + rest, acc) == Err::<
            AttrsView,
            AttrErrorView,
        >(AttrErrorView::InvalidAsPathSegment(v[0])),
        tc == 2 && v.len() >= 2 && v.len() - 2 < 4 * v[1] ==> spec_parse_attrs_from(
            attr_bytes(f, tc, v) + rest,
            acc,
        ) == Err::<AttrsView, AttrErrorView>(AttrErrorView::TooShort),
{
    lemma_parse_attr_step(f, tc, v, rest, acc);
}

/// Parsing a written attribute whose effect is known.
pub proof fn lemma_parse_attr_part(
    f: u8,
    tc: u8,
    v: Seq<u8>,
    rest: Seq<u8>,
    acc: AttrsView,
    acc2: AttrsView,
)
    requires
        v.len() <= 65535,
        v.len() > 255 || !has_extended_len(f),
        spec_apply_attr(acc, written_flags(f, v.len()), tc, v) == Ok::<AttrsView, AttrErrorView>(
            acc2,
        ),
    ensures
        spec_parse_attrs_from(attr_bytes(f, tc, v) + rest, acc) == spec_parse_attrs_from(rest, acc2),
{
    lemma_parse_attr_step(f, tc, v, rest, acc);
}

/// Parsing written pass-through attributes appends them, in order.
pub proof fn lemma_raws_roundtrip(us: Seq<RawView>, rest: Seq<u8>, acc: AttrsView)
    requires
        forall|i: int|
            0 <= i < us.len() ==> {
                let r = #[trigger] us[i];
                &&& r.value.len() <= 65535
                &&& !(1 <= r.type_code <= 10)
                &&& has_extended_len(r.flags) == (r.value.len() > 255)
            },
    ensures
        spec_parse_attrs_from(flat_map_bytes(us, |r: RawView| raw_bytes(r)) + rest, acc)
            == spec_parse_attrs_from(rest, AttrsView { unknown: acc.unknown + us, ..acc }),
    decreases us.len(),
{
    if us.len() == 0 {
        assert(flat_map_bytes(us, |r: RawView| raw_bytes(r)) + rest =~= rest);
        assert(AttrsView { unknown: acc.unknown + us, ..acc } =~= acc);
    } else {
        let r = us[0];
        let tail = us.skip(1);
        assert(us =~= seq![r] + tail);
        lemma_flat_map_cons(r, tail, |q: RawView| raw_bytes(q));
        assert(flat_map_bytes(us, |q: RawView| raw_bytes(q)) + rest =~= raw_bytes(r) + (
        flat_map_bytes(tail, |q: RawView| raw_bytes(q)) + rest));
        let f = r.flags;
        if r.value.len() > 255 {
            assert(f & 0x10u8 != 0 ==> (f | 0x10u8) == f) by (bit_vector);
        }
        assert(written_flags(f, r.value.len()) == f);
        let acc2 = AttrsView { unknown: acc.unknown.push(r), ..acc };
        lemma_parse_attr_part(
            f,
            r.type_code,
            r.value,
            flat_map_bytes(tail, |q: RawView| raw_bytes(q)) + rest,
            acc,
            acc2,
        );
        assert forall|i: int| 0 <= i < tail.len() implies {
            let x = #[trigger] tail[i];
            &&& x.value.len() <= 65535
            &&& !(1 <= x.type_code <= 10)
            &&& has_extended_len(x.flags) == (x.value.len() > 255)
        } by {
            assert(tail[i] == us[i + 1]);
        }
        lemma_raws_roundtrip(tail, rest, acc2);
        assert(AttrsView { unknown: acc2.unknown + tail, ..acc2 } =~= AttrsView {
            unknown: acc.unknown + us,
            ..acc
        });
    }
}

/// Parsing after an absent part.
proof fn lemma_absent(rest: Seq<u8>, acc: AttrsView)
    ensures
        spec_parse_attrs_from(Seq::<u8>::empty() + rest, acc) == spec_parse_attrs_from(rest, acc),
{
    assert(Seq::<u8>::empty() + rest =~= rest);
}

proof fn lemma_flags_short()
    ensures
        !has_extended_len(0x40u8),
        !has_extended_len(0x80u8),
        !has_extended_len(0xC0u8),
{
    assert(!has_extended_len(0x40u8)) by (bit_vector);
    assert(!has_extended_len(0x80u8)) by (bit_vector);
    assert(!has_extended_len(0xC0u8)) by (bit_vector);
}

proof fn lemma_step_origin(a: AttrsView, rest: Seq<u8>, acc: AttrsView)
    ensures
        spec_parse_attrs_from(origin_part(a) + rest, acc) == spec_parse_attrs_from(
            rest,
            if a.origin is Some { AttrsView { origin: a.origin, ..acc } } else { acc },
        ),
{
    lemma_flags_short();
    if a.origin is Some {
        let o = a.origin->0;
        assert(spec_origin_of(spec_origin_code(o)) == Some(o));
        lemma_parse_attr_part(0x40, 1, seq![spec_origin_code(o)], rest, acc, AttrsView { origin: a.origin, ..acc });
    } else {
        lemma_absent(rest, acc);
    }
}

proof fn lemma_step_as_path(a: AttrsView, rest: Seq<u8>, acc: AttrsView)
    requires
        forall|i: int| 0 <= i < a.as_path.len() ==> (#[trigger] a.as_path[i]).asns().len() <= 255,
        segments_bytes(a.as_path).len() <= 65535,
        acc.as_path.len() == 0,
    ensures
        spec_parse_attrs_from(as_path_part(a) + rest, acc) == spec_parse_attrs_from(
            rest,
            AttrsView { as_path: a.as_path, ..acc },
        ),
{
    lemma_flags_short();
    if a.as_path.len() > 0 {
        lemma_segments_roundtrip(a.as_path);
        assert(acc.as_path + a.as_path =~= a.as_path);
        lemma_parse_attr_part(0x40, 2, segments_bytes(a.as_path), rest, acc, AttrsView { as_path: a.as_path, ..acc });
    } else {
        assert(AttrsView { as_path: a.as_path, ..acc } =~= acc);
        lemma_absent(rest, acc);
    }
}

proof fn lemma_step_u32(present: bool, x: u32, f: u8, tc: u8, rest: Seq<u8>, acc: AttrsView, acc2: AttrsView)
    requires
        tc == 3 || tc == 4 || tc == 5 || tc == 9,
        f == 0x40 || f == 0x80,
        present ==> acc2 == (if tc == 3 {
            AttrsView { next_hop: Some(x), ..acc }
        } else if tc == 4 {
            AttrsView { multi_exit_disc: Some(x), ..acc }
        } else if tc == 5 {
            AttrsView { local_pref: Some(x), ..acc }
        } else {
            AttrsView { originator_id: Some(x), ..acc }
        }),
        !present ==> acc2 == acc,
    ensures
        spec_parse_attrs_from(when(present, attr_bytes(f, tc, u32_bytes(x))) + rest, acc)
            == spec_parse_attrs_from(rest, acc2),
{
    lemma_flags_short();
    if present {
        lemma_u32_roundtrip(x);
        assert(u32_bytes(x).subrange(0, 4) =~= u32_bytes(x));
        lemma_parse_attr_part(f, tc, u32_bytes(x), rest, acc, acc2);
    } else {
        lemma_absent(rest, acc);
    }
}

proof fn lemma_step_atomic(a: AttrsView, rest: Seq<u8>, acc: AttrsView)
    requires
        acc.atomic_aggregate == false,
    ensures
        spec_parse_attrs_from(atomic_part(a) + rest, acc) == spec_parse_attrs_from(
            rest,
            AttrsView { atomic_aggregate: a.atomic_aggregate, ..acc },
        ),
{
    lemma_flags_short();
    if a.atomic_aggregate {
        lemma_parse_attr_part(0x40, 6, Seq::empty(), rest, acc, AttrsView { atomic_aggregate: true, ..acc });
    } else {
        assert(AttrsView { atomic_aggregate: a.atomic_aggregate, ..acc } =~= acc);
        lemma_absent(rest, acc);
    }
}

proof fn lemma_step_aggregator(a: AttrsView, rest: Seq<u8>, acc: AttrsView)
    ensures
        spec_parse_attrs_from(aggregator_part(a) + rest, acc) == spec_parse_attrs_from(
            rest,
            if a.aggregator is Some { AttrsView { aggregator: a.aggregator, ..acc } } else { acc },
        ),
{
    lemma_flags_short();
    if a.aggregator is Some {
        let (asn, ip) = a.aggregator->0;
        let v = u16_bytes(asn) + u32_bytes(ip);
        lemma_u16_roundtrip(asn);
        lemma_u32_roundtrip(ip);
        assert(v.subrange(0, 2) =~= u16_bytes(asn));
        assert(v.subrange(2, 6) =~= u32_bytes(ip));
        lemma_parse_attr_part(0xC0, 7, v, rest, acc, AttrsView { aggregator: a.aggregator, ..acc });
    } else {
        lemma_absent(rest, acc);
    }
}

proof fn lemma_step_communities(a: AttrsView, rest: Seq<u8>, acc: AttrsView)
    requires
        4 * a.communities.len() <= 65535,
        acc.communities.len() == 0,
    ensures
        spec_parse_attrs_from(communities_part(a) + rest, acc) == spec_parse_attrs_from(
            rest,
            AttrsView { communities: a.communities, ..acc },
        ),
{
    lemma_flags_short();
    if a.communities.len() > 0 {
        let xs = a.communities.map_values(|c: Community| c.0);
        lemma_u32s_roundtrip(xs);
        assert(spec_parse_u32s(communities_bytes(a.communities)).map_values(|x: u32| Community(x))
            =~= a.communities);
        assert(acc.communities + a.communities =~= a.communities);
        lemma_parse_attr_part(0xC0, 8, communities_bytes(a.communities), rest, acc, AttrsView { communities: a.communities, ..acc });
    } else {
        assert(AttrsView { communities: a.communities, ..acc } =~= acc);
        lemma_absent(rest, acc);
    }
}

proof fn lemma_step_cluster(a: AttrsView, rest: Seq<u8>, acc: AttrsView)
    requires
        4 * a.cluster_list.len() <= 65535,
        acc.cluster_list.len() == 0,
    ensures
        spec_parse_attrs_from(cluster_part(a) + rest, acc) == spec_parse_attrs_from(
            rest,
            AttrsView { cluster_list: a.cluster_list, ..acc },
        ),
{
    lemma_flags_short();
    if a.cluster_list.len() > 0 {
        lemma_u32s_roundtrip(a.cluster_list);
        assert(acc.cluster_list + a.cluster_list =~= a.cluster_list);
        lemma_parse_attr_part(0x80, 10, u32s_bytes(a.cluster_list), rest, acc, AttrsView { cluster_list: a.cluster_list, ..acc });
    } else {
        assert(AttrsView { cluster_list: a.cluster_list, ..acc } =~= acc);
        lemma_absent(rest, acc);
    }
}

proof fn lemma_add_assoc(x: Seq<u8>, y: Seq<u8>, z: Seq<u8>)
    ensures
        (x + y) + z == x + (y + z),
{
    assert((x + y) + z =~= x + (y + z));
}

proof fn lemma_attrs_bytes_nested(a: AttrsView)
    ensures
        attrs_bytes(a) == origin_part(a) + (as_path_part(a) + (next_hop_part(a) + (med_part(a) + (
        local_pref_part(a) + (atomic_part(a) + (aggregator_part(a) + (communities_part(a) + (
        originator_part(a) + (cluster_part(a) + unknown_part(a)))))))))),
{
    let p1 = origin_part(a);
    let p2 = as_path_part(a);
    let p3 = next_hop_part(a);
    let p4 = med_part(a);
    let p5 = local_pref_part(a);
    let p6 = atomic_part(a);
    let p7 = aggregator_part(a);
    let p8 = communities_part(a);
    let p9 = originator_part(a);
    let p10 = cluster_part(a);
    let p11 = unknown_part(a);
    let r10 = p10 + p11;
    let r9 = p9 + r10;
    let r8 = p8 + r9;
    let r7 = p7 + r8;
    let r6 = p6 + r7;
    let r5 = p5 + r6;
    let r4 = p4 + r5;
    let r3 = p3 + r4;
    let r2 = p2 + r3;
    let l2 = p1 + p2;
    let l3 = l2 + p3;
    let l4 = l3 + p4;
    let l5 = l4 + p5;
    let l6 = l5 + p6;
    let l7 = l6 + p7;
    let l8 = l7 + p8;
    let l9 = l8 + p9;
    let l10 = l9 + p10;
    lemma_add_assoc(l9, p10, p11);
    lemma_add_assoc(l8, p9, r10);
    lemma_add_assoc(l7, p8, r9);
    lemma_add_assoc(l6, p7, r8);
    lemma_add_assoc(l5, p6, r7);
    lemma_add_assoc(l4, p5, r6);
    lemma_add_assoc(l3, p4, r5);
    lemma_add_assoc(l2, p3, r4);
    lemma_add_assoc(p1, p2, r3);
}

proof fn lemma_parse_attrs_done(acc: AttrsView)
    ensures
        spec_parse_attrs_from(Seq::empty(), acc) == Ok::<AttrsView, AttrErrorView>(acc),
{
    reveal(spec_parse_attrs_from);
}

/// Serializing attributes and parsing the result gives the attributes back.
#[verifier::rlimit(40)]
pub proof fn lemma_attrs_roundtrip(a: AttrsView)
    requires
        attrs_wire_ok(a),
    ensures
        spec_parse_attrs(attrs_bytes(a)) == Ok::<AttrsView, AttrErrorView>(a),
{
    let u = unknown_part(a);
    let t10 = cluster_part(a) + u;
    let t9 = originator_part(a) + t10;
    let t8 = communities_part(a) + t9;
    let t7 = aggregator_part(a) + t8;
    let t6 = atomic_part(a) + t7;
    let t5 = local_pref_part(a) + t6;
    let t4 = med_part(a) + t5;
    let t3 = next_hop_part(a) + t4;
    let t2 = as_path_part(a) + t3;
    let t1 = origin_part(a) + t2;
    lemma_attrs_bytes_nested(a);
    let acc0 = empty_attrs();
    let acc1 = AttrsView { origin: a.origin, ..acc0 };
    let acc2 = AttrsView { as_path: a.as_path, ..acc1 };
    let acc3 = AttrsView { next_hop: a.next_hop, ..acc2 };
    let acc4 = AttrsView { multi_exit_disc: a.multi_exit_disc, ..acc3 };
    let acc5 = AttrsView { local_pref: a.local_pref, ..acc4 };
    let acc6 = AttrsView { atomic_aggregate: a.atomic_aggregate, ..acc5 };
    let acc7 = AttrsView { aggregator: a.aggregator, ..acc6 };
    let acc8 = AttrsView { communities: a.communities, ..acc7 };
    let acc9 = AttrsView { originator_id: a.originator_id, ..acc8 };
    let acc10 = AttrsView { cluster_list: a.cluster_list, ..acc9 };
    lemma_step_origin(a, t2, acc0);
    assert((if a.origin is Some { AttrsView { origin: a.origin, ..acc0 } } else { acc0 }) == acc1);
    lemma_step_as_path(a, t3, acc1);
    lemma_step_u32(a.next_hop is Some, a.next_hop->0, 0x40, 3, t4, acc2, acc3);
    lemma_step_u32(a.multi_exit_disc is Some, a.multi_exit_disc->0, 0x80, 4, t5, acc3, acc4);
    lemma_step_u32(a.local_pref is Some, a.local_pref->0, 0x40, 5, t6, acc4, acc5);
    lemma_step_atomic(a, t7, acc5);
    lemma_step_aggregator(a, t8, acc6);
    assert((if a.aggregator is Some { AttrsView { aggregator: a.aggregator, ..acc6 } } else { acc6 }) == acc7);
    lemma_step_communities(a, t9, acc7);
    lemma_step_u32(a.originator_id is Some, a.originator_id->0, 0x80, 9, t10, acc8, acc9);
    lemma_step_cluster(a, u, acc9);
    lemma_raws_roundtrip(a.unknown, Seq::empty(), acc10);
    assert(u + Seq::<u8>::empty() =~= u);
    lemma_parse_attrs_done(AttrsView { unknown: acc10.unknown + a.unknown, ..acc10 });
    assert(AttrsView { unknown: acc10.unknown + a.unknown, ..acc10 } =~= a);
}

} // verus!
