//! The management interface's commands and their text answers: peer
//! summary, routing table, prefix detail, neighbors, metrics and help.

use crate::attr::{AttrsView, Community, Origin, SegmentView, spec_community_text};
use crate::fsm::{state_name, BgpState};
use crate::metrics::{spec_prometheus_text, spec_text_summary, Metrics, MetricsSnapshot};
use crate::mp::IpAddress;
use crate::net::{
    parse_ipv4,
    push_ip,
    push_ipv4,
    push_socket,
    spec_ip_text,
    spec_ipv4_text,
    spec_parse_ipv4,
    spec_socket_text,
    SocketAddress,
};
use crate::rib::{PrefixKey, Rib, RouteTable, RouteView};
use crate::text::{
    chars_of,
    decimal,
    find_char,
    pad_left,
    pad_right,
    parse_unsigned,
    push_decimal,
    push_pad_left,
    push_pad_right,
    push_repeat,
    push_str,
    repeat_char,
    spec_decimal,
    spec_parse_unsigned,
    spec_split_once,
    spec_words,
    split_whitespace,
    str_equal,
};
use vstd::prelude::*;

verus! {

/// Peer summary info for show commands.
#[derive(Debug, Clone)]
pub struct PeerInfo {
    pub addr: SocketAddress,
    pub remote_as: u32,
    pub state: BgpState,
    pub description: Option<String>,
    pub uptime_secs: u64,
    pub routes_received: usize,
}

/// Peer info with its description as a sequence.
pub struct PeerInfoView {
    pub addr: SocketAddress,
    pub remote_as: u32,
    pub state: BgpState,
    pub description: Option<Seq<char>>,
    pub uptime_secs: u64,
    pub routes_received: usize,
}

impl View for PeerInfo {
    type V = PeerInfoView;

    open spec fn view(&self) -> PeerInfoView {
        PeerInfoView {
            addr: self.addr,
            remote_as: self.remote_as,
            state: self.state,
            description: match self.description {
                Some(d) => Some(d@),
                None => None,
            },
            uptime_secs: self.uptime_secs,
            routes_received: self.routes_received,
        }
    }
}

/// Shared management state: the known peers.
pub struct MgmtState {
    pub peers: Vec<PeerInfo>,
}

impl Default for MgmtState {
    fn default() -> (r: Self)
        ensures
            r.peers@.len() == 0,
    {
        MgmtState { peers: Vec::new() }
    }
}

/// The views of the peers.
pub open spec fn peers_view(ps: Seq<PeerInfo>) -> Seq<PeerInfoView> {
    ps.map_values(|p: PeerInfo| p@)
}

/// A management command.
#[derive(Debug)]
pub enum Command<'a> {
    /// `show bgp summary`
    Summary,
    /// `show bgp rib`
    Rib,
    /// `show bgp rib prefix <prefix>`
    RibPrefix(&'a str),
    /// `show bgp neighbors [<ip>]`
    Neighbors(Option<&'a str>),
    /// `show bgp metrics`
    Metrics,
    /// `metrics` (Prometheus format)
    Prometheus,
    /// `help`, or an empty line
    Help,
    /// `quit` or `exit`
    Quit,
    /// anything else
    Unknown,
}

/// A management command with its arguments as sequences.
pub enum CommandView {
    Summary,
    Rib,
    RibPrefix(Seq<char>),
    Neighbors(Option<Seq<char>>),
    Metrics,
    Prometheus,
    Help,
    Quit,
    Unknown,
}

impl<'a> View for Command<'a> {
    type V = CommandView;

    open spec fn view(&self) -> CommandView {
        match self {
            Command::Summary => CommandView::Summary,
            Command::Rib => CommandView::Rib,
            Command::RibPrefix(p) => CommandView::RibPrefix(p@),
            Command::Neighbors(f) => CommandView::Neighbors(
                match f {
                    Some(ip) => Some(ip@),
                    None => None,
                },
            ),
            Command::Metrics => CommandView::Metrics,
            Command::Prometheus => CommandView::Prometheus,
            Command::Help => CommandView::Help,
            Command::Quit => CommandView::Quit,
            Command::Unknown => CommandView::Unknown,
        }
    }
}

/// The command that a line's words spell.
pub open spec fn spec_command(ws: Seq<Seq<char>>) -> CommandView {
    if ws.len() == 3 && ws[0] == "show"@ && ws[1] == "bgp"@ && ws[2] == "summary"@ {
        CommandView::Summary
    } else if ws.len() == 3 && ws[0] == "show"@ && ws[1] == "bgp"@ && ws[2] == "rib"@ {
        CommandView::Rib
    } else if ws.len() == 5 && ws[0] == "show"@ && ws[1] == "bgp"@ && ws[2] == "rib"@ && ws[3]
        == "prefix"@ {
        CommandView::RibPrefix(ws[4])
    } else if ws.len() == 3 && ws[0] == "show"@ && ws[1] == "bgp"@ && ws[2] == "neighbors"@ {
        CommandView::Neighbors(None)
    } else if ws.len() == 4 && ws[0] == "show"@ && ws[1] == "bgp"@ && ws[2] == "neighbors"@ {
        CommandView::Neighbors(Some(ws[3]))
    } else if ws.len() == 3 && ws[0] == "show"@ && ws[1] == "bgp"@ && ws[2] == "metrics"@ {
        CommandView::Metrics
    } else if ws.len() == 1 && ws[0] == "metrics"@ {
        CommandView::Prometheus
    } else if ws.len() == 0 || (ws.len() == 1 && ws[0] == "help"@) {
        CommandView::Help
    } else if ws.len() == 1 && (ws[0] == "quit"@ || ws[0] == "exit"@) {
        CommandView::Quit
    } else {
        CommandView::Unknown
    }
}

/// Reads a command line (split on white space).
pub fn parse_command<'a>(cmd: &'a str) -> (r: Command<'a>)
    ensures
        r@ == spec_command(spec_words(cmd@)),
{
    let ws = split_whitespace(cmd);
    let ghost sw = spec_words(cmd@);
    let n = ws.len();
    if n == 0 {
        return Command::Help;
    }
    proof {
        assert(ws@[0]@ == sw[0]);
    }
    if n == 1 {
        if str_equal(ws[0], "metrics") {
            return Command::Prometheus;
        }
        if str_equal(ws[0], "help") {
            return Command::Help;
        }
        if str_equal(ws[0], "quit") || str_equal(ws[0], "exit") {
            return Command::Quit;
        }
        return Command::Unknown;
    }
    proof {
        assert(ws@[1]@ == sw[1]);
    }
    if n < 3 || !str_equal(ws[0], "show") || !str_equal(ws[1], "bgp") {
        return Command::Unknown;
    }
    proof {
        assert(ws@[2]@ == sw[2]);
    }
    let w2 = ws[2];
    if n == 3 {
        if str_equal(w2, "summary") {
            return Command::Summary;
        }
        if str_equal(w2, "rib") {
            return Command::Rib;
        }
        if str_equal(w2, "neighbors") {
            return Command::Neighbors(None);
        }
        if str_equal(w2, "metrics") {
            return Command::Metrics;
        }
        return Command::Unknown;
    }
    proof {
        assert(ws@[3]@ == sw[3]);
    }
    if n == 4 {
        if str_equal(w2, "neighbors") {
            return Command::Neighbors(Some(ws[3]));
        }
        return Command::Unknown;
    }
    if n == 5 && str_equal(w2, "rib") && str_equal(ws[3], "prefix") {
        proof {
            assert(ws@[4]@ == sw[4]);
        }
        return Command::RibPrefix(ws[4]);
    }
    Command::Unknown
}

/// The text of an optional description (empty when absent).
pub open spec fn desc_text(d: Option<Seq<char>>) -> Seq<char> {
    match d {
        Some(s) => s,
        None => Seq::empty(),
    }
}

/// One peer's line in the summary: address (padded to 22), AS (right-aligned
/// in 8), state, description.
pub open spec fn summary_line(p: PeerInfoView) -> Seq<char> {
    pad_right(spec_socket_text(p.addr), 22) + " "@ + pad_left(spec_decimal(p.remote_as as nat), 8)
        + " "@ + state_name(p.state) + " "@ + desc_text(p.description) + "\n"@
}

/// The summary lines of the peers, in order.
pub open spec fn summary_lines(ps: Seq<PeerInfoView>) -> Seq<char>
    decreases ps.len(),
{
    if ps.len() == 0 {
        Seq::empty()
    } else {
        summary_lines(ps.drop_last()) + summary_line(ps.last())
    }
}

/// The answer to `show bgp summary`.
pub open spec fn spec_summary(ps: Seq<PeerInfoView>, loc_count: nat) -> Seq<char> {
    "BGP Summary\n"@ + "===========\n"@ + "Total prefixes in Loc-RIB: "@ + spec_decimal(loc_count) + "\n\n"@
        + pad_right("Neighbor"@, 22) + " "@ + pad_left("AS"@, 8) + " "@ + pad_left("State"@, 12)
        + " "@ + "Description"@ + "\n"@ + repeat_char('-', 70) + "\n"@ + summary_lines(ps) + (
    if ps.len() == 0 {
        "(no peers configured)\n"@
    } else {
        Seq::empty()
    })
}

/// Appends one peer's summary line.
fn push_summary_line(out: &mut String, p: &PeerInfo)
    ensures
        final(out)@ == old(out)@ + summary_line(p@),
{
    let mut a = String::new();
    push_socket(&mut a, p.addr);
    push_pad_right(out, a.as_str(), 22);
    push_str(out, " ");
    let asn = decimal(p.remote_as as u64);
    push_pad_left(out, asn.as_str(), 8);
    push_str(out, " ");
    let st = p.state.to_string();
    push_str(out, st.as_str());
    push_str(out, " ");
    match &p.description {
        Some(d) => push_str(out, d.as_str()),
        None => {},
    }
    push_str(out, "\n");
    assert(final(out)@ =~= old(out)@ + summary_line(p@));
}

/// Peer summary and RIB count.
pub fn cmd_bgp_summary(state: &MgmtState, rib: &Rib) -> (r: String)
    requires
        rib.wf(),
    ensures
        r@ == spec_summary(peers_view(state.peers@), rib.loc().len()),
{
    proof {
        reveal_strlit("-");
    }
    let (_, _, loc_count) = rib.summary();
    let mut out = String::new();
    push_str(&mut out, "BGP Summary\n");
    assert(out@ =~= "BGP Summary\n"@);
    push_str(&mut out, "===========\n");
    push_str(&mut out, "Total prefixes in Loc-RIB: ");
    push_decimal(&mut out, loc_count as u64);
    push_str(&mut out, "\n\n");
    push_pad_right(&mut out, "Neighbor", 22);
    push_str(&mut out, " ");
    push_pad_left(&mut out, "AS", 8);
    push_str(&mut out, " ");
    push_pad_left(&mut out, "State", 12);
    push_str(&mut out, " ");
    push_str(&mut out, "Description");
    push_str(&mut out, "\n");
    push_repeat(&mut out, "-", 70);
    push_str(&mut out, "\n");
    let ghost head = out@;
    let ghost ps = peers_view(state.peers@);
    let mut i: usize = 0;
    assert(ps.take(0) =~= Seq::<PeerInfoView>::empty());
    while i < state.peers.len()
        invariant
            i <= state.peers@.len(),
            ps == peers_view(state.peers@),
            out@ == head + summary_lines(ps.take(i as int)),
        decreases state.peers@.len() - i,
    {
        push_summary_line(&mut out, &state.peers[i]);
        proof {
            assert(ps.take(i + 1).drop_last() =~= ps.take(i as int));
            assert(ps[i as int] == state.peers@[i as int]@);
        }
        i = i + 1;
    }
    assert(ps.take(i as int) =~= ps);
    if state.peers.len() == 0 {
        push_str(&mut out, "(no peers configured)\n");
    }
    assert(out@ =~= spec_summary(ps, rib.loc().len()));
    out
}

/// The AS numbers of an AS_PATH, segment by segment.
pub open spec fn as_path_numbers(segs: Seq<SegmentView>) -> Seq<u32>
    decreases segs.len(),
{
    if segs.len() == 0 {
        Seq::empty()
    } else {
        as_path_numbers(segs.drop_last()) + segs.last().asns()
    }
}

/// Numbers in decimal, separated by single spaces.
pub open spec fn joined_decimals(xs: Seq<u32>) -> Seq<char>
    decreases xs.len(),
{
    if xs.len() == 0 {
        Seq::empty()
    } else if xs.len() == 1 {
        spec_decimal(xs[0] as nat)
    } else {
        joined_decimals(xs.drop_last()) + " "@ + spec_decimal(xs.last() as nat)
    }
}

/// The AS_PATH as text, or `none` when it holds no AS number.
pub open spec fn as_path_text(a: AttrsView, none: Seq<char>) -> Seq<char> {
    let xs = as_path_numbers(a.as_path);
    if xs.len() == 0 {
        none
    } else {
        joined_decimals(xs)
    }
}

/// The next hop as text, or `-`.
pub open spec fn next_hop_text(a: AttrsView) -> Seq<char> {
    match a.next_hop {
        Some(n) => spec_ipv4_text(n),
        None => "-"@,
    }
}

/// The name of an origin.
pub open spec fn origin_name(o: Origin) -> Seq<char> {
    match o {
        Origin::Igp => "IGP"@,
        Origin::Egp => "EGP"@,
        Origin::Incomplete => "Incomplete"@,
    }
}

/// The origin as text, or `?`.
pub open spec fn origin_text(a: AttrsView) -> Seq<char> {
    match a.origin {
        Some(o) => origin_name(o),
        None => "?"@,
    }
}

/// LOCAL_PREF as shown (100 when absent).
pub open spec fn shown_local_pref(a: AttrsView) -> nat {
    match a.local_pref {
        Some(v) => v as nat,
        None => 100,
    }
}

/// MED as shown (0 when absent).
pub open spec fn shown_med(a: AttrsView) -> nat {
    match a.multi_exit_disc {
        Some(v) => v as nat,
        None => 0,
    }
}

/// The text of a prefix key, `a.b.c.d/len`.
pub open spec fn key_text(k: PrefixKey) -> Seq<char> {
    spec_ipv4_text(k.address) + seq!['/'] + spec_decimal(k.prefix_len as nat)
}

/// Builds the AS_PATH text of `a` (without the fallback).
fn as_path_string(a: &crate::attr::PathAttributes) -> (r: String)
    ensures
        r@ == joined_decimals(as_path_numbers(a@.as_path)),
{
    proof {
        reveal_strlit(" ");
    }
    let ghost segs = a@.as_path;
    let mut out = String::new();
    let mut nonempty = false;
    let mut i: usize = 0;
    assert(segs.take(0) =~= Seq::<SegmentView>::empty());
    while i < a.as_path.len()
        invariant
            i <= a.as_path@.len(),
            segs == a@.as_path,
            segs.len() == a.as_path@.len(),
            out@ == joined_decimals(as_path_numbers(segs.take(i as int))),
            nonempty == (as_path_numbers(segs.take(i as int)).len() > 0),
        decreases a.as_path@.len() - i,
    {
        let nums = a.as_path[i].as_numbers();
        let ghost before = as_path_numbers(segs.take(i as int));
        proof {
            assert(segs.take(i + 1).drop_last() =~= segs.take(i as int));
            assert(segs[i as int] == a.as_path@[i as int]@);
        }
        let mut j: usize = 0;
        while j < nums.len()
            invariant
                j <= nums@.len(),
                out@ == joined_decimals(before + nums@.take(j as int)),
                nonempty == ((before + nums@.take(j as int)).len() > 0),
            decreases nums@.len() - j,
        {
            let ghost xs = before + nums@.take(j as int);
            assert((before + nums@.take(j + 1)).drop_last() =~= xs);
            assert((before + nums@.take(j + 1)).last() == nums@[j as int]);
            if nonempty {
                push_str(&mut out, " ");
            }
            push_decimal(&mut out, nums[j] as u64);
            proof {
                if xs.len() == 0 {
                    assert(before + nums@.take(j + 1) =~= seq![nums@[j as int]]);
                }
                assert(out@ =~= joined_decimals(before + nums@.take(j + 1)));
            }
            nonempty = true;
            j = j + 1;
        }
        proof {
            assert(nums@.take(j as int) =~= nums@);
            assert(as_path_numbers(segs.take(i + 1)) == before + segs[i as int].asns());
        }
        i = i + 1;
    }
    assert(segs.take(i as int) =~= segs);
    out
}

/// One route's line in the routing table.
pub open spec fn rib_line(k: PrefixKey, r: RouteView) -> Seq<char> {
    pad_right(key_text(k), 20) + " "@ + pad_left(spec_decimal(shown_local_pref(r.attrs)), 10) + " "@
        + pad_left(spec_decimal(shown_med(r.attrs)), 6) + " "@ + pad_left(as_path_text(r.attrs, "-"@), 6)
        + " "@ + pad_right(next_hop_text(r.attrs), 20) + " "@ + origin_text(r.attrs) + "\n"@
}

/// The routing table lines for `ks`, in order.
pub open spec fn rib_lines(ks: Seq<PrefixKey>, loc: Map<PrefixKey, RouteView>) -> Seq<char>
    decreases ks.len(),
{
    if ks.len() == 0 {
        Seq::empty()
    } else {
        rib_lines(ks.drop_last(), loc) + rib_line(ks.last(), loc[ks.last()])
    }
}

/// The routing table header.
pub open spec fn rib_header() -> Seq<char> {
    "BGP Routing Table (Loc-RIB)\n"@ + "===========================\n"@ + pad_right("Network"@, 20)
        + " "@ + pad_left("Local-Pref"@, 8) + " "@ + pad_left("MED"@, 6) + " "@ + pad_left(
        "AS-Path"@,
        6,
    ) + " "@ + pad_right("Next-Hop"@, 20) + " "@ + "Origin"@ + "\n"@ + repeat_char('-', 80) + "\n"@
}

/// Keys in strictly ascending order of address, then length.
pub open spec fn keys_sorted(ks: Seq<PrefixKey>) -> bool {
    forall|i: int, j: int| 0 <= i < j < ks.len() ==> key_lt(#[trigger] ks[i], #[trigger] ks[j])
}

/// Key order: by address, then by length.
pub open spec fn key_lt(a: PrefixKey, b: PrefixKey) -> bool {
    a.address < b.address || (a.address == b.address && a.prefix_len < b.prefix_len)
}

/// Whether `text` is the answer to `show bgp rib` for `loc`: a fixed line
/// when it is empty, else the header and one line per prefix in ascending
/// order.
pub open spec fn is_rib_text(loc: Map<PrefixKey, RouteView>, text: Seq<char>) -> bool {
    if loc.len() == 0 {
        text == "Loc-RIB is empty.\n"@
    } else {
        exists|ks: Seq<PrefixKey>|
            keys_sorted(ks) && ks.to_set() == loc.dom() && text == rib_header() + rib_lines(ks, loc)
    }
}

/// The keys, sorted.
fn sorted_keys(ks: &Vec<PrefixKey>) -> (r: Vec<PrefixKey>)
    requires
        ks@.no_duplicates(),
    ensures
        keys_sorted(r@),
        r@.to_set() == ks@.to_set(),
{
    let mut out: Vec<PrefixKey> = Vec::new();
    let mut i: usize = 0;
    while i < ks.len()
        invariant
            i <= ks@.len(),
            ks@.no_duplicates(),
            keys_sorted(out@),
            forall|x: PrefixKey| #[trigger] out@.contains(x) <==> ks@.take(i as int).contains(x),
        decreases ks@.len() - i,
    {
        let k = ks[i];
        let mut pos: usize = 0;
        while pos < out.len() && (out[pos].address < k.address || (out[pos].address == k.address
            && out[pos].prefix_len < k.prefix_len))
            invariant
                pos <= out@.len(),
                forall|j: int| 0 <= j < pos ==> key_lt(#[trigger] out@[j], k),
            decreases out@.len() - pos,
        {
            pos = pos + 1;
        }
        proof {
            assert(!out@.contains(k)) by {
                if out@.contains(k) {
                    assert(ks@.take(i as int).contains(k));
                    let w = choose|w: int| 0 <= w < ks@.take(i as int).len() && ks@.take(i as int)[w] == k;
                    assert(ks@[w] == ks@[i as int]);
                }
            }
            if pos < out@.len() {
                assert(out@[pos as int] != k) by {
                    assert(out@.contains(out@[pos as int]));
                }
                assert(key_lt(k, out@[pos as int]));
            }
        }
        let ghost before = out@;
        out.insert(pos, k);
        proof {
            assert forall|a: int, b: int| 0 <= a < b < out@.len() implies key_lt(#[trigger] out@[a], #[trigger] out@[b]) by {
                if b < pos {
                    assert(out@[a] == before[a] && out@[b] == before[b]);
                } else if b == pos {
                    assert(out@[a] == before[a]);
                } else if a == pos {
                    assert(out@[b] == before[b - 1]);
                    if b - 1 > pos {
                        assert(key_lt(before[pos as int], before[b - 1]));
                    }
                } else if a < pos {
                    assert(out@[a] == before[a] && out@[b] == before[b - 1]);
                } else {
                    assert(out@[a] == before[a - 1] && out@[b] == before[b - 1]);
                }
            }
            assert forall|x: PrefixKey| #[trigger] out@.contains(x) <==> ks@.take(i + 1).contains(x) by {
                crate::rib::lemma_take_push_contains(ks@, i as int, x);
                lemma_insert_contains(before, pos as int, k, x);
            }
        }
        i = i + 1;
    }
    assert(ks@.take(i as int) =~= ks@);
    assert(out@.to_set() =~= ks@.to_set());
    out
}

/// Inserting `k` adds exactly `k`.
proof fn lemma_insert_contains<T>(s: Seq<T>, pos: int, k: T, x: T)
    requires
        0 <= pos <= s.len(),
    ensures
        s.insert(pos, k).contains(x) == (s.contains(x) || x == k),
{
    let t = s.insert(pos, k);
    if t.contains(x) {
        let w = choose|w: int| 0 <= w < t.len() && t[w] == x;
        if w < pos {
            assert(s[w] == x);
        } else if w > pos {
            assert(s[w - 1] == x);
        }
    }
    if s.contains(x) {
        let w = choose|w: int| 0 <= w < s.len() && s[w] == x;
        if w < pos {
            assert(t[w] == x);
        } else {
            assert(t[w + 1] == x);
        }
    }
    if x == k {
        assert(t[pos] == x);
    }
}

/// The AS_PATH text of `a`, or `none` when it holds no AS number.
fn as_path_or(a: &crate::attr::PathAttributes, none: &str) -> (r: String)
    ensures
        r@ == as_path_text(a@, none@),
{
    let path = as_path_string(a);
    proof {
        if as_path_numbers(a@.as_path).len() > 0 {
            lemma_joined_nonempty(as_path_numbers(a@.as_path));
        }
    }
    if path.unicode_len() == 0 {
        String::from_str(none)
    } else {
        path
    }
}

/// The next-hop text of `a`.
fn next_hop_string(a: &crate::attr::PathAttributes) -> (r: String)
    ensures
        r@ == next_hop_text(a@),
{
    proof {
        reveal_strlit("-");
    }
    let mut nh = String::new();
    match a.next_hop {
        Some(x) => push_ipv4(&mut nh, x),
        None => push_str(&mut nh, "-"),
    }
    assert(nh@ =~= next_hop_text(a@));
    nh
}

/// The origin text of `a`.
fn origin_str(a: &crate::attr::PathAttributes) -> (r: &'static str)
    ensures
        r@ == origin_text(a@),
{
    match a.origin {
        Some(o) => o.name(),
        None => "?",
    }
}

/// LOCAL_PREF as shown.
fn shown_lp(a: &crate::attr::PathAttributes) -> (r: u64)
    ensures
        r as nat == shown_local_pref(a@),
{
    match a.local_pref {
        Some(v) => v as u64,
        None => 100,
    }
}

/// MED as shown.
fn shown_med_value(a: &crate::attr::PathAttributes) -> (r: u64)
    ensures
        r as nat == shown_med(a@),
{
    match a.multi_exit_disc {
        Some(v) => v as u64,
        None => 0,
    }
}

/// Appends one route's line.
fn push_rib_line(out: &mut String, k: &PrefixKey, route: &crate::rib::Route)
    ensures
        final(out)@ == old(out)@ + rib_line(*k, route@),
{
    let key = k.to_string();
    let lp = decimal(shown_lp(&route.attrs));
    let med = decimal(shown_med_value(&route.attrs));
    let path = as_path_or(&route.attrs, "-");
    let nh = next_hop_string(&route.attrs);
    let origin = origin_str(&route.attrs);
    let mut line = String::new();
    push_pad_right(&mut line, key.as_str(), 20);
    assert(line@ =~= pad_right(key_text(*k), 20));
    push_str(&mut line, " ");
    push_pad_left(&mut line, lp.as_str(), 10);
    push_str(&mut line, " ");
    push_pad_left(&mut line, med.as_str(), 6);
    push_str(&mut line, " ");
    push_pad_left(&mut line, path.as_str(), 6);
    push_str(&mut line, " ");
    push_pad_right(&mut line, nh.as_str(), 20);
    push_str(&mut line, " ");
    push_str(&mut line, origin);
    push_str(&mut line, "\n");
    push_str(out, line.as_str());
}

/// A nonempty list of numbers gives nonempty text.
proof fn lemma_joined_nonempty(xs: Seq<u32>)
    requires
        xs.len() > 0,
    ensures
        joined_decimals(xs).len() > 0,
    decreases xs.len(),
{
    if xs.len() > 1 {
        lemma_joined_nonempty(xs.drop_last());
    }
}

/// The full BGP routing table (Loc-RIB), one line per prefix in ascending
/// order.
pub fn cmd_bgp_rib(rib: &Rib) -> (r: String)
    requires
        rib.wf(),
    ensures
        is_rib_text(rib.loc(), r@),
{
    proof {
        reveal_strlit("-");
    }
    let loc_rib = rib.loc_rib();
    if loc_rib.is_empty() {
        return String::from_str("Loc-RIB is empty.\n");
    }
    let mut out = String::new();
    push_str(&mut out, "BGP Routing Table (Loc-RIB)\n");
    assert(out@ =~= "BGP Routing Table (Loc-RIB)\n"@);
    push_str(&mut out, "===========================\n");
    push_pad_right(&mut out, "Network", 20);
    push_str(&mut out, " ");
    push_pad_left(&mut out, "Local-Pref", 8);
    push_str(&mut out, " ");
    push_pad_left(&mut out, "MED", 6);
    push_str(&mut out, " ");
    push_pad_left(&mut out, "AS-Path", 6);
    push_str(&mut out, " ");
    push_pad_right(&mut out, "Next-Hop", 20);
    push_str(&mut out, " ");
    push_str(&mut out, "Origin");
    push_str(&mut out, "\n");
    push_repeat(&mut out, "-", 80);
    push_str(&mut out, "\n");
    assert(out@ =~= rib_header());
    let keys = loc_rib.keys();
    let ks = sorted_keys(&keys);
    let ghost loc = rib.loc();
    let mut i: usize = 0;
    assert(ks@.take(0) =~= Seq::<PrefixKey>::empty());
    while i < ks.len()
        invariant
            i <= ks@.len(),
            loc_rib.wf(),
            loc_rib@ == loc,
            ks@.to_set() == loc.dom(),
            out@ == rib_header() + rib_lines(ks@.take(i as int), loc),
        decreases ks@.len() - i,
    {
        let k = ks[i];
        proof {
            assert(ks@.to_set().contains(k));
            assert(ks@.take(i + 1).drop_last() =~= ks@.take(i as int));
        }
        match loc_rib.get(&k) {
            Some(route) => push_rib_line(&mut out, &k, route),
            None => {},
        }
        i = i + 1;
    }
    assert(ks@.take(i as int) =~= ks@);
    out
}

/// Communities as text, separated by single spaces.
pub open spec fn joined_communities(cs: Seq<Community>) -> Seq<char>
    decreases cs.len(),
{
    if cs.len() == 0 {
        Seq::empty()
    } else if cs.len() == 1 {
        spec_community_text(cs[0])
    } else {
        joined_communities(cs.drop_last()) + " "@ + spec_community_text(cs.last())
    }
}

/// The detail of one Loc-RIB route, as `show bgp rib prefix` gives it.
pub open spec fn prefix_detail(s: Seq<char>, r: RouteView) -> Seq<char> {
    "BGP Prefix "@ + s + "\n"@ + "  Best path from:  "@ + spec_socket_text(r.peer_addr) + "\n"@
        + "  Peer AS:         "@ + spec_decimal(r.peer_as as nat) + "\n"@ + "  Next-hop:        "@
        + next_hop_text(r.attrs) + "\n"@ + "  Local-pref:      "@ + spec_decimal(
        shown_local_pref(r.attrs),
    ) + "\n"@ + "  MED:             "@ + spec_decimal(shown_med(r.attrs)) + "\n"@
        + "  Origin:          "@ + origin_text(r.attrs) + "\n"@ + "  AS-path:         "@
        + as_path_text(r.attrs, "(empty)"@) + "\n"@ + (if r.attrs.communities.len() == 0 {
        Seq::empty()
    } else {
        "  Communities:     "@ + joined_communities(r.attrs.communities) + "\n"@
    })
}

/// The answer to `show bgp rib prefix <s>`.
pub open spec fn spec_rib_prefix(loc: Map<PrefixKey, RouteView>, s: Seq<char>) -> Seq<char> {
    match spec_split_once(s, '/') {
        None => "Invalid prefix format: '"@ + s + "'. Use X.X.X.X/LEN\n"@,
        Some((a, l)) => match spec_parse_ipv4(a) {
            None => "Invalid address: '"@ + a + "'\n"@,
            Some(addr) => match spec_parse_unsigned(l, 255) {
                None => "Invalid prefix length: '"@ + l + "'\n"@,
                Some(len) => {
                    let k = PrefixKey { address: addr, prefix_len: len as u8 };
                    if loc.contains_key(k) {
                        prefix_detail(s, loc[k])
                    } else {
                        "Prefix "@ + s + " not found in Loc-RIB.\n"@
                    }
                },
            },
        },
    }
}

/// Appends the communities as text.
fn push_communities(out: &mut String, cs: &Vec<Community>)
    ensures
        final(out)@ == old(out)@ + joined_communities(cs@),
{
    proof {
        reveal_strlit(" ");
    }
    let mut i: usize = 0;
    assert(cs@.take(0) =~= Seq::<Community>::empty());
    while i < cs.len()
        invariant
            i <= cs@.len(),
            out@ == old(out)@ + joined_communities(cs@.take(i as int)),
        decreases cs@.len() - i,
    {
        proof {
            reveal_strlit(" ");
            assert(cs@.take(i + 1).drop_last() =~= cs@.take(i as int));
            if i == 0 {
                assert(cs@.take(1) =~= seq![cs@[0]]);
            }
        }
        if i > 0 {
            push_str(out, " ");
        }
        let t = cs[i].to_string();
        push_str(out, t.as_str());
        i = i + 1;
        assert(out@ =~= old(out)@ + joined_communities(cs@.take(i as int)));
    }
    assert(cs@.take(i as int) =~= cs@);
}

/// The communities line of `a`, if it has communities.
fn communities_part(a: &crate::attr::PathAttributes) -> (r: String)
    ensures
        r@ == (if a@.communities.len() == 0 {
            Seq::<char>::empty()
        } else {
            "  Communities:     "@ + joined_communities(a@.communities) + "\n"@
        }),
{
    let mut out = String::new();
    if a.communities.len() > 0 {
        push_str(&mut out, "  Communities:     ");
        assert(out@ =~= "  Communities:     "@);
        push_communities(&mut out, &a.communities);
        push_str(&mut out, "\n");
    } else {
        assert(out@ =~= Seq::<char>::empty());
    }
    out
}

/// Appends the detail of one route.
fn push_prefix_detail(out: &mut String, s: &str, route: &crate::rib::Route)
    ensures
        final(out)@ == old(out)@ + prefix_detail(s@, route@),
{
    let nh = next_hop_string(&route.attrs);
    let origin = origin_str(&route.attrs);
    let path = as_path_or(&route.attrs, "(empty)");
    let comms = communities_part(&route.attrs);
    let mut line = String::new();
    push_str(&mut line, "BGP Prefix ");
    assert(line@ =~= "BGP Prefix "@);
    push_str(&mut line, s);
    push_str(&mut line, "\n");
    push_str(&mut line, "  Best path from:  ");
    push_socket(&mut line, route.peer_addr);
    push_str(&mut line, "\n");
    push_str(&mut line, "  Peer AS:         ");
    push_decimal(&mut line, route.peer_as as u64);
    push_str(&mut line, "\n");
    push_str(&mut line, "  Next-hop:        ");
    push_str(&mut line, nh.as_str());
    push_str(&mut line, "\n");
    push_str(&mut line, "  Local-pref:      ");
    push_decimal(&mut line, shown_lp(&route.attrs));
    push_str(&mut line, "\n");
    push_str(&mut line, "  MED:             ");
    push_decimal(&mut line, shown_med_value(&route.attrs));
    push_str(&mut line, "\n");
    push_str(&mut line, "  Origin:          ");
    push_str(&mut line, origin);
    push_str(&mut line, "\n");
    push_str(&mut line, "  AS-path:         ");
    push_str(&mut line, path.as_str());
    push_str(&mut line, "\n");
    push_str(&mut line, comms.as_str());
    push_str(out, line.as_str());
}

/// Detail for a specific prefix, given as `a.b.c.d/len`.
pub fn cmd_bgp_rib_prefix(rib: &Rib, prefix_str: &str) -> (r: String)
    requires
        rib.wf(),
    ensures
        r@ == spec_rib_prefix(rib.loc(), prefix_str@),
{
    let cs = chars_of(prefix_str);
    let mut out = String::new();
    let slash = match find_char(&cs, '/') {
        Some(i) => i,
        None => {
            push_str(&mut out, "Invalid prefix format: '");
            push_str(&mut out, prefix_str);
            push_str(&mut out, "'. Use X.X.X.X/LEN\n");
            assert(out@ =~= spec_rib_prefix(rib.loc(), prefix_str@));
            return out;
        },
    };
    let n = cs.len();
    let addr_s = prefix_str.substring_char(0, slash);
    let len_s = prefix_str.substring_char(slash + 1, n);
    proof {
        assert(addr_s@ =~= prefix_str@.take(slash as int));
        assert(len_s@ =~= prefix_str@.skip(slash + 1));
    }
    let addr = match parse_ipv4(&chars_of(addr_s)) {
        Some(a) => a,
        None => {
            push_str(&mut out, "Invalid address: '");
            push_str(&mut out, addr_s);
            push_str(&mut out, "'\n");
            assert(out@ =~= spec_rib_prefix(rib.loc(), prefix_str@));
            return out;
        },
    };
    let len = match parse_unsigned(&chars_of(len_s), 255) {
        Some(l) => l as u8,
        None => {
            push_str(&mut out, "Invalid prefix length: '");
            push_str(&mut out, len_s);
            push_str(&mut out, "'\n");
            assert(out@ =~= spec_rib_prefix(rib.loc(), prefix_str@));
            return out;
        },
    };
    let key = PrefixKey { address: addr, prefix_len: len };
    match rib.loc_rib().get(&key) {
        Some(route) => {
            push_prefix_detail(&mut out, prefix_str, route);
        },
        None => {
            push_str(&mut out, "Prefix ");
            push_str(&mut out, prefix_str);
            push_str(&mut out, " not found in Loc-RIB.\n");
        },
    }
    assert(out@ =~= spec_rib_prefix(rib.loc(), prefix_str@));
    out
}

/// Whether a peer is shown for the neighbor filter.
pub open spec fn neighbor_selected(p: PeerInfoView, filter: Option<Seq<char>>) -> bool {
    match filter {
        None => true,
        Some(ip) => spec_ip_text(p.addr.ip) == ip,
    }
}

/// One neighbor's block.
pub open spec fn neighbor_block(p: PeerInfoView) -> Seq<char> {
    "BGP neighbor "@ + spec_socket_text(p.addr) + "\n"@ + "  Remote AS:    "@ + spec_decimal(
        p.remote_as as nat,
    ) + "\n"@ + "  State:        "@ + state_name(p.state) + "\n"@ + "  Routes rcvd:  "@
        + spec_decimal(p.routes_received as nat) + "\n"@ + "  Uptime:       "@ + spec_decimal(
        p.uptime_secs as nat,
    ) + "s\n"@ + match p.description {
        Some(d) => "  Description:  "@ + d + "\n"@,
        None => Seq::empty(),
    } + "\n"@
}

/// The blocks of the selected neighbors, in order.
pub open spec fn neighbor_blocks(ps: Seq<PeerInfoView>, filter: Option<Seq<char>>) -> Seq<char>
    decreases ps.len(),
{
    if ps.len() == 0 {
        Seq::empty()
    } else {
        neighbor_blocks(ps.drop_last(), filter) + if neighbor_selected(ps.last(), filter) {
            neighbor_block(ps.last())
        } else {
            Seq::empty()
        }
    }
}

/// The answer to `show bgp neighbors [<ip>]`.
pub open spec fn spec_neighbors(ps: Seq<PeerInfoView>, filter: Option<Seq<char>>) -> Seq<char> {
    if exists|i: int| 0 <= i < ps.len() && neighbor_selected(#[trigger] ps[i], filter) {
        neighbor_blocks(ps, filter)
    } else {
        "No matching neighbors.\n"@
    }
}

/// The description line of a neighbor, if it has a description.
fn description_part(p: &PeerInfo) -> (r: String)
    ensures
        r@ == (match p@.description {
            Some(d) => "  Description:  "@ + d + "\n"@,
            None => Seq::<char>::empty(),
        }),
{
    let mut out = String::new();
    match &p.description {
        Some(d) => {
            push_str(&mut out, "  Description:  ");
            assert(out@ =~= "  Description:  "@);
            push_str(&mut out, d.as_str());
            push_str(&mut out, "\n");
        },
        None => {
            assert(out@ =~= Seq::<char>::empty());
        },
    }
    out
}

/// Appends one neighbor's block.
fn push_neighbor_block(out: &mut String, p: &PeerInfo)
    ensures
        final(out)@ == old(out)@ + neighbor_block(p@),
{
    let st = p.state.to_string();
    let desc = description_part(p);
    let mut line = String::new();
    push_str(&mut line, "BGP neighbor ");
    assert(line@ =~= "BGP neighbor "@);
    push_socket(&mut line, p.addr);
    push_str(&mut line, "\n");
    push_str(&mut line, "  Remote AS:    ");
    push_decimal(&mut line, p.remote_as as u64);
    push_str(&mut line, "\n");
    push_str(&mut line, "  State:        ");
    push_str(&mut line, st.as_str());
    push_str(&mut line, "\n");
    push_str(&mut line, "  Routes rcvd:  ");
    push_decimal(&mut line, p.routes_received as u64);
    push_str(&mut line, "\n");
    push_str(&mut line, "  Uptime:       ");
    push_decimal(&mut line, p.uptime_secs);
    push_str(&mut line, "s\n");
    push_str(&mut line, desc.as_str());
    push_str(&mut line, "\n");
    push_str(out, line.as_str());
}

/// All neighbors, or those whose IP address reads `filter_ip`.
pub fn cmd_bgp_neighbors(state: &MgmtState, filter_ip: Option<&str>) -> (r: String)
    ensures
        r@ == spec_neighbors(
            peers_view(state.peers@),
            match filter_ip {
                Some(ip) => Some(ip@),
                None => None,
            },
        ),
{
    let ghost ps = peers_view(state.peers@);
    let ghost f = match filter_ip {
        Some(ip) => Some(ip@),
        None => None::<Seq<char>>,
    };
    let mut out = String::new();
    let mut found = false;
    let mut i: usize = 0;
    assert(ps.take(0) =~= Seq::<PeerInfoView>::empty());
    while i < state.peers.len()
        invariant
            i <= state.peers@.len(),
            ps == peers_view(state.peers@),
            f == (match filter_ip {
                Some(ip) => Some(ip@),
                None => None::<Seq<char>>,
            }),
            out@ == neighbor_blocks(ps.take(i as int), f),
            found == exists|j: int| 0 <= j < i && neighbor_selected(#[trigger] ps[j], f),
        decreases state.peers@.len() - i,
    {
        let p = &state.peers[i];
        proof {
            assert(ps.take(i + 1).drop_last() =~= ps.take(i as int));
            assert(ps[i as int] == p@);
        }
        let selected = match filter_ip {
            None => true,
            Some(ip) => {
                let mut t = String::new();
                push_ip(&mut t, p.addr.ip);
                str_equal(t.as_str(), ip)
            },
        };
        if selected {
            push_neighbor_block(&mut out, p);
            found = true;
        }
        proof {
            assert(neighbor_selected(ps[i as int], f) == selected);
            assert(out@ =~= neighbor_blocks(ps.take(i + 1), f));
        }
        i = i + 1;
    }
    assert(ps.take(i as int) =~= ps);
    if !found {
        return String::from_str("No matching neighbors.\n");
    }
    out
}

/// The help text.
pub open spec fn help_text() -> Seq<char> {
    "Available commands:\n\nshow bgp summary              — Peer summary and RIB count\nshow bgp rib                  — Full BGP routing table (Loc-RIB)\nshow bgp rib prefix X.X.X.X/N — Detail for a specific prefix\nshow bgp neighbors            — All neighbor detail\nshow bgp neighbors <ip>       — Specific neighbor detail\nshow bgp metrics              — Human-readable counters\nmetrics                       — Prometheus exposition format\nhelp                          — Show this help\nquit / exit                   — Close connection\n"@
}

/// The list of commands.
pub fn cmd_help() -> (r: String)
    ensures
        r@ == help_text(),
{
    String::from_str(
        "Available commands:\n\nshow bgp summary              — Peer summary and RIB count\nshow bgp rib                  — Full BGP routing table (Loc-RIB)\nshow bgp rib prefix X.X.X.X/N — Detail for a specific prefix\nshow bgp neighbors            — All neighbor detail\nshow bgp neighbors <ip>       — Specific neighbor detail\nshow bgp metrics              — Human-readable counters\nmetrics                       — Prometheus exposition format\nhelp                          — Show this help\nquit / exit                   — Close connection\n",
    )
}

/// Answers one command line: the command's text, `Bye!` for quit/exit, or a
/// pointer to `help` for anything unknown.
pub fn process_command(cmd: &str, state: &MgmtState, rib: &Rib, metrics: &Metrics) -> (r: String)
    requires
        rib.wf(),
    ensures
        match spec_command(spec_words(cmd@)) {
            CommandView::Summary => r@ == spec_summary(peers_view(state.peers@), rib.loc().len()),
            CommandView::Rib => is_rib_text(rib.loc(), r@),
            CommandView::RibPrefix(p) => r@ == spec_rib_prefix(rib.loc(), p),
            CommandView::Neighbors(f) => r@ == spec_neighbors(peers_view(state.peers@), f),
            CommandView::Metrics => exists|s: MetricsSnapshot| r@ == spec_text_summary(s),
            CommandView::Prometheus => exists|s: MetricsSnapshot| r@ == spec_prometheus_text(s),
            CommandView::Help => r@ == help_text(),
            CommandView::Quit => r@ == "Bye!\n"@,
            CommandView::Unknown => r@ == "Unknown command: '"@ + cmd@
                + "'\nType 'help' for available commands.\n"@,
        },
{
    match parse_command(cmd) {
        Command::Summary => cmd_bgp_summary(state, rib),
        Command::Rib => cmd_bgp_rib(rib),
        Command::RibPrefix(p) => cmd_bgp_rib_prefix(rib, p),
        Command::Neighbors(f) => cmd_bgp_neighbors(state, f),
        Command::Metrics => metrics.text_summary(),
        Command::Prometheus => metrics.prometheus_text(),
        Command::Help => cmd_help(),
        Command::Quit => String::from_str("Bye!\n"),
        Command::Unknown => {
            let mut out = String::new();
            push_str(&mut out, "Unknown command: '");
            push_str(&mut out, cmd);
            push_str(&mut out, "'\nType 'help' for available commands.\n");
            assert(out@ =~= "Unknown command: '"@ + cmd@ + "'\nType 'help' for available commands.\n"@);
            out
        },
    }
}

} // verus!
