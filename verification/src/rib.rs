//! The Routing Information Base: Adj-RIB-In per peer, the Loc-RIB, and the
//! BGP decision process that chooses the Loc-RIB's best route per prefix.

use crate::attr::{spec_as_path_len, spec_origin_code, AttrsView, PathAttributes};
use crate::message::update::Prefix;
use crate::net::{push_ipv4, same_network, spec_ipv4_text, SocketAddress};
use crate::rpki::{RovState, RpkiMode, RpkiValidator};
use crate::search::{
    first_where,
    lemma_first_where,
    lemma_first_where_congruent,
    lemma_first_where_meaning,
};
use crate::text::{push_decimal, push_str, spec_decimal};
use std::collections::HashMap;
use vstd::prelude::*;
use vstd::std_specs::iter::IteratorSpec;

verus! {

broadcast use vstd::std_specs::hash::group_hash_axioms;

/// Key used to look up routes: the network prefix.
#[derive(Debug, Clone, Copy, PartialEq, Eq, Hash, Structural)]
pub struct PrefixKey {
    pub address: u32,
    pub prefix_len: u8,
}

/// The key of a prefix.
pub open spec fn key_of(p: Prefix) -> PrefixKey {
    PrefixKey { address: p.address, prefix_len: p.prefix_len }
}

impl PrefixKey {
    /// The key of a prefix.
    pub fn from_prefix(p: &Prefix) -> (r: PrefixKey)
        ensures
            r == key_of(*p),
    {
        PrefixKey { address: p.address, prefix_len: p.prefix_len }
    }

    /// `a.b.c.d/len`.
    pub fn to_string(&self) -> (r: String)
        ensures
            r@ == spec_ipv4_text(self.address) + seq!['/'] + spec_decimal(self.prefix_len as nat),
    {
        proof {
            reveal_strlit("/");
        }
        let mut s = String::new();
        push_ipv4(&mut s, self.address);
        push_str(&mut s, "/");
        push_decimal(&mut s, self.prefix_len as u64);
        assert(s@ =~= spec_ipv4_text(self.address) + seq!['/'] + spec_decimal(
            self.prefix_len as nat,
        ));
        s
    }
}

impl<'a> From<&'a Prefix> for PrefixKey {
    fn from(p: &'a Prefix) -> (r: PrefixKey) {
        PrefixKey::from_prefix(p)
    }
}

impl<'a> vstd::std_specs::convert::FromSpecImpl<&'a Prefix> for PrefixKey {
    open spec fn obeys_from_spec() -> bool {
        true
    }

    open spec fn from_spec(p: &'a Prefix) -> PrefixKey {
        key_of(*p)
    }
}

/// A route entry stored in the RIB.
#[derive(Debug)]
pub struct Route {
    /// The network prefix for this route.
    pub prefix: Prefix,
    /// BGP path attributes associated with this route.
    pub attrs: PathAttributes,
    /// The peer that advertised this route.
    pub peer_addr: SocketAddress,
    /// The peer's AS number.
    pub peer_as: u32,
    /// Arrival order: routes received later carry larger numbers.
    pub received_at: u64,
    /// RFC 4724: route is stale pending graceful restart.
    pub stale: bool,
    /// RFC 6811: RPKI/ROA validation state.
    pub rov_state: RovState,
}

/// A route with its attributes as a view.
pub struct RouteView {
    pub prefix: Prefix,
    pub attrs: AttrsView,
    pub peer_addr: SocketAddress,
    pub peer_as: u32,
    pub received_at: u64,
    pub stale: bool,
    pub rov_state: RovState,
}

impl View for Route {
    type V = RouteView;

    open spec fn view(&self) -> RouteView {
        RouteView {
            prefix: self.prefix,
            attrs: self.attrs@,
            peer_addr: self.peer_addr,
            peer_as: self.peer_as,
            received_at: self.received_at,
            stale: self.stale,
            rov_state: self.rov_state,
        }
    }
}

impl Route {
    /// A fresh route: not stale, with validation state `NotFound`.
    pub fn new(
        prefix: Prefix,
        attrs: PathAttributes,
        peer_addr: SocketAddress,
        peer_as: u32,
        received_at: u64,
    ) -> (r: Self)
        ensures
            r@ == (RouteView {
                prefix,
                attrs: attrs@,
                peer_addr,
                peer_as,
                received_at,
                stale: false,
                rov_state: RovState::NotFound,
            }),
    {
        Route {
            prefix,
            attrs,
            peer_addr,
            peer_as,
            received_at,
            stale: false,
            rov_state: RovState::NotFound,
        }
    }

    /// A copy of this route.
    pub fn duplicate(&self) -> (r: Self)
        ensures
            r@ == self@,
    {
        Route {
            prefix: self.prefix,
            attrs: self.attrs.duplicate(),
            peer_addr: self.peer_addr,
            peer_as: self.peer_as,
            received_at: self.received_at,
            stale: self.stale,
            rov_state: self.rov_state,
        }
    }
}

/// The number under which the route for `k` is filed: the prefix length
/// above the 32 address bits.
pub open spec fn key_code(k: PrefixKey) -> u64 {
    (k.prefix_len as int * 0x1_0000_0000 + k.address as int) as u64
}

/// The key that a filing number stands for.
pub open spec fn code_key(c: u64) -> PrefixKey {
    PrefixKey { address: (c % 0x1_0000_0000) as u32, prefix_len: (c / 0x1_0000_0000) as u8 }
}

/// Filing numbers tell keys apart.
pub proof fn lemma_key_code(k: PrefixKey)
    ensures
        code_key(key_code(k)) == k,
{
    let n = k.prefix_len as int * 0x1_0000_0000 + k.address as int;
    assert(n < 0x1_0000_0000_0000_0000) by (nonlinear_arith)
        requires
            n == k.prefix_len as int * 0x1_0000_0000 + k.address as int,
            k.prefix_len < 256,
            k.address < 0x1_0000_0000,
    ;
    assert(n / 0x1_0000_0000 == k.prefix_len as int && n % 0x1_0000_0000 == k.address as int)
        by (nonlinear_arith)
        requires
            n == k.prefix_len as int * 0x1_0000_0000 + k.address as int,
            0 <= k.address < 0x1_0000_0000,
            0 <= k.prefix_len,
    ;
}

/// The filing number of `key`.
fn code_of(key: &PrefixKey) -> (r: u64)
    ensures
        r == key_code(*key),
{
    proof {
        lemma_key_code(*key);
    }
    (key.prefix_len as u64) * 0x1_0000_0000 + key.address as u64
}

/// A table of routes, at most one per prefix: an Adj-RIB-In, the Loc-RIB or
/// an Adj-RIB-Out. Each route is filed under the number of its prefix.
pub struct RouteTable {
    routes: HashMap<u64, Route>,
}

/// Adj-RIB-In: routes received from a specific peer.
pub type AdjRibIn = RouteTable;

/// Loc-RIB: the best route for each prefix after the decision process.
pub type LocRib = RouteTable;

/// Adj-RIB-Out: routes we will advertise to each peer.
pub type AdjRibOut = RouteTable;

impl View for RouteTable {
    type V = Map<PrefixKey, RouteView>;

    closed spec fn view(&self) -> Map<PrefixKey, RouteView> {
        Map::new(
            |k: PrefixKey| self.routes@.contains_key(key_code(k)),
            |k: PrefixKey| self.routes@[key_code(k)]@,
        )
    }
}

impl RouteTable {
    /// Every route is filed under the number of its own prefix.
    pub closed spec fn wf(&self) -> bool {
        forall|c: u64| #[trigger] self.routes@.contains_key(c) ==> key_code(key_of(self.routes@[c].prefix)) == c
    }

    /// An empty table.
    pub fn new() -> (r: Self)
        ensures
            r.wf(),
            r@ == Map::<PrefixKey, RouteView>::empty(),
    {
        let r = RouteTable { routes: HashMap::new() };
        assert(r@ =~= Map::<PrefixKey, RouteView>::empty());
        r
    }

    /// The table's keys are its filing numbers read back, one for one.
    proof fn lemma_view_dom(&self)
        requires
            self.wf(),
        ensures
            self@.dom() == self.routes@.dom().map(|c: u64| code_key(c)),
            self@.dom().finite(),
            self@.len() == self.routes@.len(),
            forall|c: u64| #[trigger] self.routes@.contains_key(c) ==> self@.contains_key(code_key(c))
                && key_code(code_key(c)) == c && self@[code_key(c)] == self.routes@[c]@,
    {
        let d = self.routes@.dom();
        let f = |c: u64| code_key(c);
        assert forall|c: u64| #[trigger] self.routes@.contains_key(c) implies key_code(code_key(c)) == c by {
            lemma_key_code(key_of(self.routes@[c].prefix));
        }
        assert forall|k: PrefixKey| self@.dom().contains(k) <==> #[trigger] d.map(f).contains(k) by {
            lemma_key_code(k);
            if self@.dom().contains(k) {
                assert(f(key_code(k)) == k);
                assert(d.contains(key_code(k)));
            }
            if d.map(f).contains(k) {
                let c = choose|c: u64| d.contains(c) && f(c) == k;
                assert(key_code(code_key(c)) == c);
            }
        }
        assert(self@.dom() =~= d.map(f));
        assert forall|a: u64, b: u64| d.contains(a) && d.contains(b) && #[trigger] f(a) == #[trigger] f(b) implies a == b by {
            assert(key_code(code_key(a)) == a);
            assert(key_code(code_key(b)) == b);
        }
        vstd::set_lib::lemma_map_size(d, self@.dom(), f);
    }

    /// The route filed under `key`.
    pub fn get(&self, key: &PrefixKey) -> (r: Option<&Route>)
        requires
            self.wf(),
        ensures
            match r {
                Some(rt) => self@.contains_key(*key) && self@[*key] == rt@ && key_of(rt.prefix)
                    == *key,
                None => !self@.contains_key(*key),
            },
    {
        let c = code_of(key);
        let r = self.routes.get(&c);
        proof {
            if r is Some {
                let rt = r->0;
                lemma_key_code(key_of(rt.prefix));
                lemma_key_code(*key);
            }
        }
        r
    }

    /// Whether a route is filed under `key`.
    pub fn contains_key(&self, key: &PrefixKey) -> (r: bool)
        requires
            self.wf(),
        ensures
            r == self@.contains_key(*key),
    {
        match self.get(key) {
            Some(_) => true,
            None => false,
        }
    }

    /// Files `route` under its prefix, replacing the route there.
    pub fn insert(&mut self, route: Route)
        requires
            old(self).wf(),
        ensures
            final(self).wf(),
            final(self)@ == old(self)@.insert(key_of(route.prefix), route@),
    {
        let key = PrefixKey::from_prefix(&route.prefix);
        let c = code_of(&key);
        let ghost old_self = *self;
        self.routes.insert(c, route);
        proof {
            lemma_key_code(key);
            assert forall|k: PrefixKey| #[trigger] self@.contains_key(k) == old_self@.insert(key, route@).contains_key(k) by {
                lemma_key_code(k);
            }
            assert forall|k: PrefixKey| #[trigger] self@.contains_key(k) implies self@[k] == old_self@.insert(key, route@)[k] by {
                lemma_key_code(k);
            }
            assert(self@ =~= old_self@.insert(key, route@));
        }
    }

    /// Removes the route filed under `key`, handing it back.
    pub fn remove(&mut self, key: &PrefixKey) -> (r: Option<Route>)
        requires
            old(self).wf(),
        ensures
            final(self).wf(),
            final(self)@ == old(self)@.remove(*key),
            match r {
                Some(rt) => old(self)@.contains_key(*key) && old(self)@[*key] == rt@,
                None => !old(self)@.contains_key(*key),
            },
    {
        let c = code_of(key);
        let ghost old_self = *self;
        let r = self.routes.remove(&c);
        proof {
            lemma_key_code(*key);
            assert forall|k: PrefixKey| #[trigger] self@.contains_key(k) == old_self@.remove(*key).contains_key(k) by {
                lemma_key_code(k);
            }
            assert forall|k: PrefixKey| #[trigger] self@.contains_key(k) implies self@[k] == old_self@.remove(*key)[k] by {
                lemma_key_code(k);
            }
            assert(self@ =~= old_self@.remove(*key));
        }
        r
    }

    /// Number of routes.
    pub fn len(&self) -> (r: usize)
        requires
            self.wf(),
        ensures
            r == self@.len(),
    {
        proof {
            self.lemma_view_dom();
        }
        self.routes.len()
    }

    /// Whether the table holds no route.
    pub fn is_empty(&self) -> (r: bool)
        requires
            self.wf(),
        ensures
            r == (self@.len() == 0),
            r <==> forall|k: PrefixKey| !#[trigger] self@.contains_key(k),
    {
        proof {
            self.lemma_view_dom();
            if self@.len() != 0 {
                let k = self@.dom().choose();
                assert(self@.contains_key(k));
            } else {
                assert forall|k: PrefixKey| !#[trigger] self@.contains_key(k) by {
                    if self@.contains_key(k) {
                        assert(self@.dom().contains(k));
                    }
                }
            }
        }
        self.len() == 0
    }

    /// The filing numbers in use, each once.
    fn codes(&self) -> (r: Vec<u64>)
        ensures
            r@.no_duplicates(),
            r@.to_set() == self.routes@.dom(),
    {
        let mut out: Vec<u64> = Vec::new();
        let ghost ks = self.routes.keys().remaining();
        for c in it: self.routes.keys()
            invariant
                it.seq() == ks,
                ks.no_duplicates(),
                ks.unref().to_set() == self.routes@.dom(),
                out@ == ks.take(it.index() as int).map_values(|x: &u64| *x),
        {
            out.push(*c);
        }
        assert(out@ =~= ks.map_values(|x: &u64| *x));
        assert(out@ =~= ks.unref());
        out
    }

    /// The keys of the routes, each once (in no particular order).
    pub fn keys(&self) -> (r: Vec<PrefixKey>)
        requires
            self.wf(),
        ensures
            r@.no_duplicates(),
            r@.to_set() == self@.dom(),
            r@.len() == self@.len(),
    {
        let cs = self.codes();
        let mut out: Vec<PrefixKey> = Vec::new();
        let mut i: usize = 0;
        proof {
            self.lemma_view_dom();
        }
        while i < cs.len()
            invariant
                i <= cs@.len(),
                self.wf(),
                cs@.no_duplicates(),
                cs@.to_set() == self.routes@.dom(),
                out@ == cs@.take(i as int).map_values(|c: u64| code_key(c)),
                forall|c: u64| #[trigger] self.routes@.contains_key(c) ==> key_code(code_key(c)) == c,
            decreases cs@.len() - i,
        {
            let c = cs[i];
            proof {
                assert(cs@.to_set().contains(c));
            }
            let rt = self.routes.get(&c);
            let k = match rt {
                Some(r) => PrefixKey::from_prefix(&r.prefix),
                None => {
                    proof {
                        assert(self.routes@.contains_key(c));
                        assert(false);
                    }
                    PrefixKey { address: 0, prefix_len: 0 }
                },
            };
            proof {
                assert(k == code_key(c)) by {
                    lemma_key_code(key_of(self.routes@[c].prefix));
                }
            }
            out.push(k);
            i = i + 1;
            assert(out@ =~= cs@.take(i as int).map_values(|c: u64| code_key(c)));
        }
        proof {
            assert(cs@.take(i as int) =~= cs@);
            let ks = out@;
            assert forall|x: int, y: int| 0 <= x < ks.len() && 0 <= y < ks.len() && x != y implies ks[x] != ks[y] by {
                assert(cs@.to_set().contains(cs@[x]) && cs@.to_set().contains(cs@[y]));
            }
            assert forall|k: PrefixKey| ks.to_set().contains(k) <==> #[trigger] self@.dom().contains(k) by {
                if ks.to_set().contains(k) {
                    let x = choose|x: int| 0 <= x < ks.len() && ks[x] == k;
                    assert(cs@.to_set().contains(cs@[x]));
                }
                if self@.dom().contains(k) {
                    lemma_key_code(k);
                    assert(cs@.to_set().contains(key_code(k)));
                    let x = choose|x: int| 0 <= x < cs@.len() && #[trigger] cs@[x] == key_code(k);
                    assert(ks[x] == k);
                }
            }
            assert(ks.to_set() =~= self@.dom());
            ks.unique_seq_to_set();
        }
        out
    }

    /// The routes, each once (in no particular order).
    pub fn routes(&self) -> (r: Vec<Route>)
        requires
            self.wf(),
        ensures
            r@.len() == self@.len(),
            forall|i: int|
                0 <= i < r@.len() ==> self@.contains_key(key_of(#[trigger] r@[i].prefix)) && self@[key_of(
                    r@[i].prefix,
                )] == r@[i]@,
            forall|i: int, j: int|
                0 <= i < j < r@.len() ==> key_of(#[trigger] r@[i].prefix) != key_of(#[trigger] r@[j].prefix),
    {
        let ks = self.keys();
        let mut out: Vec<Route> = Vec::new();
        let mut i: usize = 0;
        while i < ks.len()
            invariant
                i <= ks@.len(),
                self.wf(),
                ks@.no_duplicates(),
                ks@.to_set() == self@.dom(),
                out@.len() == i,
                forall|x: int| 0 <= x < i ==> key_of(#[trigger] out@[x].prefix) == ks@[x] && self@[ks@[x]]
                    == out@[x]@,
            decreases ks@.len() - i,
        {
            proof {
                assert(ks@.to_set().contains(ks@[i as int]));
            }
            match self.get(&ks[i]) {
                Some(rt) => out.push(rt.duplicate()),
                None => {
                    proof {
                        assert(false);
                    }
                },
            }
            i = i + 1;
        }
        proof {
            assert forall|x: int| 0 <= x < out@.len() implies self@.contains_key(key_of(#[trigger] out@[x].prefix)) by {
                assert(ks@.to_set().contains(ks@[x]));
            }
        }
        out
    }
}

/// A route marked stale.
pub open spec fn stale_view(r: RouteView) -> RouteView {
    RouteView {
        prefix: r.prefix,
        attrs: r.attrs,
        peer_addr: r.peer_addr,
        peer_as: r.peer_as,
        received_at: r.received_at,
        stale: true,
        rov_state: r.rov_state,
    }
}

/// `adj` once every route of `peer` is marked stale.
pub open spec fn marked_stale(adj: AdjView, peer: SocketAddress) -> AdjView {
    if peer_index(adj, peer) < 0 {
        adj
    } else {
        with_peer_routes(adj, peer, peer_routes(adj, peer).map_values(|r: RouteView| stale_view(r)))
    }
}

/// `adj` once the routes of `peer` for the keys `gone` are dropped; a peer
/// left with no route loses its entry.
pub open spec fn swept(adj: AdjView, peer: SocketAddress, gone: Set<PrefixKey>) -> AdjView {
    let i = peer_index(adj, peer);
    let m = peer_routes(adj, peer).remove_keys(gone);
    if i < 0 {
        adj
    } else if m.len() == 0 {
        adj.remove(i)
    } else {
        adj.update(i, (peer, m))
    }
}

/// The keys whose routes are stale.
pub open spec fn stale_keys_of(m: Map<PrefixKey, RouteView>) -> Set<PrefixKey> {
    m.dom().filter(|k: PrefixKey| m[k].stale)
}

/// A route marked stale (on the stored route).
spec fn stale_route() -> spec_fn(Route) -> Route {
    |r: Route|
        Route {
            prefix: r.prefix,
            attrs: r.attrs,
            peer_addr: r.peer_addr,
            peer_as: r.peer_as,
            received_at: r.received_at,
            stale: true,
            rov_state: r.rov_state,
        }
}

impl RouteTable {
    /// Marks every route stale.
    pub fn mark_all_stale(&mut self)
        requires
            old(self).wf(),
        ensures
            final(self).wf(),
            final(self)@ == old(self)@.map_values(|r: RouteView| stale_view(r)),
    {
        let cs = self.codes();
        let ghost m0 = self.routes@;
        let mut i: usize = 0;
        while i < cs.len()
            invariant
                i <= cs@.len(),
                cs@.no_duplicates(),
                cs@.to_set() == m0.dom(),
                self.routes@.dom() == m0.dom(),
                forall|c: u64| #[trigger] m0.contains_key(c) ==> key_code(key_of(m0[c].prefix)) == c,
                forall|c: u64| #[trigger] self.routes@.contains_key(c) ==> self.routes@[c] == (if cs@.take(
                    i as int,
                ).contains(c) {
                    stale_route()(m0[c])
                } else {
                    m0[c]
                }),
            decreases cs@.len() - i,
        {
            let c = cs[i];
            proof {
                assert(cs@.to_set().contains(c));
            }
            let ghost before = self.routes@;
            match self.routes.remove(&c) {
                Some(mut r) => {
                    r.stale = true;
                    self.routes.insert(c, r);
                },
                None => {
                    proof {
                        assert(false);
                    }
                },
            }
            proof {
                assert forall|d: u64| #[trigger] cs@.take(i + 1).contains(d) == (cs@.take(i as int).contains(d)
                    || d == c) by {
                    if cs@.take(i + 1).contains(d) {
                        let x = choose|x: int| 0 <= x < i + 1 && #[trigger] cs@.take(i + 1)[x] == d;
                        if x < i {
                            assert(cs@.take(i as int)[x] == d);
                        }
                    }
                    if cs@.take(i as int).contains(d) {
                        let x = choose|x: int| 0 <= x < i && #[trigger] cs@.take(i as int)[x] == d;
                        assert(cs@.take(i + 1)[x] == d);
                    }
                    if d == c {
                        assert(cs@.take(i + 1)[i as int] == d);
                    }
                }
                assert(!cs@.take(i as int).contains(c)) by {
                    if cs@.take(i as int).contains(c) {
                        let x = choose|x: int| 0 <= x < i && #[trigger] cs@.take(i as int)[x] == c;
                        assert(cs@[x] == cs@[i as int]);
                    }
                }
                assert(self.routes@.dom() =~= m0.dom());
            }
            i = i + 1;
        }
        proof {
            assert(cs@.take(i as int) =~= cs@);
            assert forall|c: u64| #[trigger] self.routes@.contains_key(c) implies key_code(key_of(self.routes@[c].prefix)) == c by {
                assert(cs@.to_set().contains(c));
            }
            let want = old(self)@.map_values(|r: RouteView| stale_view(r));
            assert forall|k: PrefixKey| #[trigger] self@.contains_key(k) == want.contains_key(k) by {}
            assert forall|k: PrefixKey| #[trigger] self@.contains_key(k) implies self@[k] == want[k] by {
                assert(cs@.to_set().contains(key_code(k)));
            }
            assert(self@ =~= want);
        }
    }

    /// The keys of the stale routes, each once.
    pub fn stale_keys(&self) -> (r: Vec<PrefixKey>)
        requires
            self.wf(),
        ensures
            r@.no_duplicates(),
            r@.to_set() == stale_keys_of(self@),
    {
        let ks = self.keys();
        let mut out: Vec<PrefixKey> = Vec::new();
        let mut i: usize = 0;
        while i < ks.len()
            invariant
                i <= ks@.len(),
                self.wf(),
                ks@.no_duplicates(),
                ks@.to_set() == self@.dom(),
                out@.no_duplicates(),
                forall|k: PrefixKey| #[trigger] out@.contains(k) <==> (ks@.take(i as int).contains(k)
                    && self@[k].stale),
            decreases ks@.len() - i,
        {
            let k = ks[i];
            proof {
                assert(ks@.to_set().contains(k));
            }
            let ghost before = out@;
            let stale = match self.get(&k) {
                Some(rt) => rt.stale,
                None => false,
            };
            proof {
                assert forall|d: PrefixKey| #[trigger] ks@.take(i + 1).contains(d) == (ks@.take(i as int).contains(d)
                    || d == k) by {
                    if ks@.take(i + 1).contains(d) {
                        let x = choose|x: int| 0 <= x < i + 1 && #[trigger] ks@.take(i + 1)[x] == d;
                        if x < i {
                            assert(ks@.take(i as int)[x] == d);
                        }
                    }
                    if ks@.take(i as int).contains(d) {
                        let x = choose|x: int| 0 <= x < i && #[trigger] ks@.take(i as int)[x] == d;
                        assert(ks@.take(i + 1)[x] == d);
                    }
                    if d == k {
                        assert(ks@.take(i + 1)[i as int] == d);
                    }
                }
                assert(!ks@.take(i as int).contains(k)) by {
                    if ks@.take(i as int).contains(k) {
                        let x = choose|x: int| 0 <= x < i && #[trigger] ks@.take(i as int)[x] == k;
                        assert(ks@[x] == ks@[i as int]);
                    }
                }
            }
            if stale {
                out.push(k);
                proof {
                    assert forall|x: int, y: int| 0 <= x < y < out@.len() implies out@[x] != out@[y] by {
                        if y == out@.len() - 1 {
                            assert(before.contains(before[x]));
                        } else {
                            assert(before[x] != before[y]);
                        }
                    }
                    assert forall|d: PrefixKey| #[trigger] out@.contains(d) == (before.contains(d) || d == k) by {
                        if out@.contains(d) {
                            let x = choose|x: int| 0 <= x < out@.len() && #[trigger] out@[x] == d;
                            if x < before.len() {
                                assert(before[x] == d);
                            }
                        }
                        if before.contains(d) {
                            let x = choose|x: int| 0 <= x < before.len() && #[trigger] before[x] == d;
                            assert(out@[x] == d);
                        }
                        if d == k {
                            assert(out@[out@.len() - 1] == d);
                        }
                    }
                }
            }
            i = i + 1;
        }
        proof {
            assert(ks@.take(i as int) =~= ks@);
            assert forall|k: PrefixKey| out@.to_set().contains(k) <==> #[trigger] stale_keys_of(self@).contains(k) by {
                if out@.contains(k) {
                    assert(ks@.contains(k));
                    assert(ks@.to_set().contains(k));
                }
                if stale_keys_of(self@).contains(k) {
                    assert(ks@.to_set().contains(k));
                }
            }
            assert(out@.to_set() =~= stale_keys_of(self@));
        }
        out
    }

    /// Number of stale routes.
    pub fn stale_count(&self) -> (r: usize)
        requires
            self.wf(),
        ensures
            r == stale_keys_of(self@).len(),
    {
        let ks = self.stale_keys();
        proof {
            ks@.unique_seq_to_set();
        }
        ks.len()
    }
}

/// What the Adj-RIB-Ins look like from outside: each peer with its routes,
/// in the order the peers first sent an update.
pub type AdjView = Seq<(SocketAddress, Map<PrefixKey, RouteView>)>;

/// LOCAL_PREF for the decision process (100 when absent).
pub open spec fn local_pref_rank(r: RouteView) -> int {
    match r.attrs.local_pref {
        Some(v) => v as int,
        None => 100,
    }
}

/// AS_PATH length for the decision process, counted up to the largest
/// `usize` (a longer path cannot be held in memory).
pub open spec fn path_rank(r: RouteView) -> int {
    if spec_as_path_len(r.attrs.as_path) <= usize::MAX {
        spec_as_path_len(r.attrs.as_path) as int
    } else {
        usize::MAX as int
    }
}

/// ORIGIN code for the decision process (IGP 0 < EGP 1 < INCOMPLETE 2; 2 when absent).
pub open spec fn origin_rank(r: RouteView) -> int {
    match r.attrs.origin {
        Some(o) => spec_origin_code(o) as int,
        None => 2,
    }
}

/// MULTI_EXIT_DISC for the decision process (0 when absent).
pub open spec fn med_rank(r: RouteView) -> int {
    match r.attrs.multi_exit_disc {
        Some(v) => v as int,
        None => 0,
    }
}

/// RFC 4271 9.1 tie-breaking: `a` is preferred to `b` on the first of these
/// that differs: higher LOCAL_PREF, shorter AS_PATH, lower ORIGIN, lower MED,
/// earlier arrival.
pub open spec fn better(a: RouteView, b: RouteView) -> bool {
    if local_pref_rank(a) != local_pref_rank(b) {
        local_pref_rank(a) > local_pref_rank(b)
    } else if path_rank(a) != path_rank(b) {
        path_rank(a) < path_rank(b)
    } else if origin_rank(a) != origin_rank(b) {
        origin_rank(a) < origin_rank(b)
    } else if med_rank(a) != med_rank(b) {
        med_rank(a) < med_rank(b)
    } else {
        a.received_at < b.received_at
    }
}

/// `better` is a strict order that ranks everything.
pub proof fn lemma_better_order(a: RouteView, b: RouteView, c: RouteView)
    ensures
        better(a, b) ==> !better(b, a),
        better(a, b) && !better(c, b) ==> better(a, c),
        better(a, b) && better(b, c) ==> better(a, c),
{
}

/// The routes that the peers hold for `k`, in peer order.
pub open spec fn candidates(adj: AdjView, k: PrefixKey) -> Seq<RouteView>
    decreases adj.len(),
{
    if adj.len() == 0 {
        Seq::empty()
    } else {
        let c = candidates(adj.drop_last(), k);
        if adj.last().1.contains_key(k) {
            c.push(adj.last().1[k])
        } else {
            c
        }
    }
}

/// Not beaten by any route of `c`, as a predicate.
pub open spec fn unbeaten(c: Seq<RouteView>) -> spec_fn(RouteView) -> bool {
    |r: RouteView| forall|j: int| 0 <= j < c.len() ==> !better(#[trigger] c[j], r)
}

/// The position of the best route in `c`: the first that no route of `c`
/// beats (-1 when `c` is empty).
pub open spec fn best_index(c: Seq<RouteView>) -> int {
    first_where(c, unbeaten(c))
}

/// The outcome of the decision process for `k`: the best candidate, if any.
pub open spec fn decision(adj: AdjView, k: PrefixKey) -> Option<RouteView> {
    let c = candidates(adj, k);
    if c.len() == 0 {
        None
    } else {
        Some(c[best_index(c)])
    }
}

/// A route with its graceful-restart mark cleared.
pub open spec fn strip(r: RouteView) -> RouteView {
    RouteView {
        prefix: r.prefix,
        attrs: r.attrs,
        peer_addr: r.peer_addr,
        peer_as: r.peer_as,
        received_at: r.received_at,
        stale: false,
        rov_state: r.rov_state,
    }
}

/// The Loc-RIB's entry for `k` is the outcome of the decision process, up
/// to the graceful-restart mark.
pub open spec fn agrees_at(adj: AdjView, loc: Map<PrefixKey, RouteView>, k: PrefixKey) -> bool {
    match decision(adj, k) {
        None => !loc.contains_key(k),
        Some(b) => loc.contains_key(k) && strip(loc[k]) == strip(b),
    }
}

/// Every route that `adj` holds comes from the peer whose entry holds it.
pub open spec fn adj_ok(adj: AdjView) -> bool {
    forall|i: int, k: PrefixKey|
        0 <= i < adj.len() && #[trigger] adj[i].1.contains_key(k) ==> adj[i].1[k].peer_addr
            == adj[i].0
}

/// No peer appears twice.
pub open spec fn peers_unique(adj: AdjView) -> bool {
    forall|i: int, j: int| 0 <= i < j < adj.len() ==> adj[i].0 != adj[j].0
}

/// Being the entry of `peer`, as a predicate.
pub open spec fn peer_is(peer: SocketAddress) -> spec_fn((SocketAddress, Map<PrefixKey, RouteView>)) -> bool {
    |e: (SocketAddress, Map<PrefixKey, RouteView>)| e.0 == peer
}

/// The position of `peer`'s entry, or -1.
pub open spec fn peer_index(adj: AdjView, peer: SocketAddress) -> int {
    first_where(adj, peer_is(peer))
}

/// The routes `peer` holds (none when it has no entry).
pub open spec fn peer_routes(adj: AdjView, peer: SocketAddress) -> Map<PrefixKey, RouteView> {
    let i = peer_index(adj, peer);
    if i < 0 {
        Map::empty()
    } else {
        adj[i].1
    }
}

/// `adj` with `peer`'s routes set to `m`; a new peer goes last.
pub open spec fn with_peer_routes(adj: AdjView, peer: SocketAddress, m: Map<PrefixKey, RouteView>) -> AdjView {
    let i = peer_index(adj, peer);
    if i < 0 {
        adj.push((peer, m))
    } else {
        adj.update(i, (peer, m))
    }
}

/// The prefix with key `k`.
pub open spec fn prefix_of(k: PrefixKey) -> Prefix {
    Prefix { prefix_len: k.prefix_len, address: k.address }
}

/// The validation state the validator gives `p` from `origin_as`.
pub open spec fn rov_of(v: RpkiValidator, p: Prefix, origin_as: u32) -> RovState {
    if v.mode == RpkiMode::Disabled {
        RovState::NotFound
    } else {
        crate::rpki::spec_rov(v.roas@, p.address, p.prefix_len, origin_as)
    }
}

/// Whether an advertisement of `p` enters the Adj-RIB-In: it is not
/// suppressed, and not RPKI-invalid under strict validation.
pub open spec fn admitted(v: RpkiValidator, p: Prefix, peer_as: u32, suppressed: bool) -> bool {
    !suppressed && !(v.mode == RpkiMode::Strict && rov_of(v, p, peer_as) == RovState::Invalid)
}

/// The route an admitted advertisement of `p` becomes.
pub open spec fn fresh_route(
    v: RpkiValidator,
    p: Prefix,
    attrs: AttrsView,
    peer: SocketAddress,
    peer_as: u32,
    seq: u64,
) -> RouteView {
    RouteView {
        prefix: p,
        attrs,
        peer_addr: peer,
        peer_as,
        received_at: seq,
        stale: false,
        rov_state: rov_of(v, p, peer_as),
    }
}

/// Whether some admitted advertisement has key `k`.
pub open spec fn is_admitted_key(
    v: RpkiValidator,
    nlri: Seq<Prefix>,
    suppressed: Seq<bool>,
    peer_as: u32,
    k: PrefixKey,
) -> bool {
    exists|j: int|
        0 <= j < nlri.len() && key_of(#[trigger] nlri[j]) == k && admitted(
            v,
            nlri[j],
            peer_as,
            suppressed[j],
        )
}

/// The routes that the admitted advertisements of an update become.
pub open spec fn admitted_routes(
    v: RpkiValidator,
    nlri: Seq<Prefix>,
    suppressed: Seq<bool>,
    attrs: AttrsView,
    peer: SocketAddress,
    peer_as: u32,
    seq: u64,
) -> Map<PrefixKey, RouteView> {
    Map::new(
        |k: PrefixKey| is_admitted_key(v, nlri, suppressed, peer_as, k),
        |k: PrefixKey| fresh_route(v, prefix_of(k), attrs, peer, peer_as, seq),
    )
}

/// The keys of the withdrawn prefixes.
pub open spec fn withdrawn_keys(withdrawn: Seq<Prefix>) -> Set<PrefixKey> {
    Set::new(|k: PrefixKey| exists|j: int| 0 <= j < withdrawn.len() && key_of(#[trigger] withdrawn[j]) == k)
}

/// A peer's routes after an update: the admitted advertisements replace or
/// join its routes, then the withdrawn prefixes leave.
pub open spec fn routes_after_update(
    old_routes: Map<PrefixKey, RouteView>,
    v: RpkiValidator,
    nlri: Seq<Prefix>,
    suppressed: Seq<bool>,
    attrs: AttrsView,
    peer: SocketAddress,
    peer_as: u32,
    seq: u64,
    withdrawn: Seq<Prefix>,
) -> Map<PrefixKey, RouteView> {
    old_routes.union_prefer_right(
        admitted_routes(v, nlri, suppressed, attrs, peer, peer_as, seq),
    ).remove_keys(withdrawn_keys(withdrawn))
}

/// One peer's Adj-RIB-In.
struct PeerRib {
    addr: SocketAddress,
    routes: RouteTable,
}

/// The view of a peer's entry, as a function.
spec fn peer_entry() -> spec_fn(PeerRib) -> (SocketAddress, Map<PrefixKey, RouteView>) {
    |p: PeerRib| (p.addr, p.routes@)
}

/// The full BGP Routing Information Base.
pub struct Rib {
    /// Adj-RIB-In per peer.
    adj_rib_in: Vec<PeerRib>,
    /// The best route for each prefix (Loc-RIB).
    loc_rib: RouteTable,
    /// RFC 6811 RPKI/ROA validator.
    pub rpki: RpkiValidator,
    /// The arrival number the next update's routes get.
    next_seq: u64,
}

impl Rib {
    /// Each peer with the routes it sent.
    pub closed spec fn adj(&self) -> AdjView {
        self.adj_rib_in@.map_values(peer_entry())
    }

    /// The Loc-RIB.
    pub closed spec fn loc(&self) -> Map<PrefixKey, RouteView> {
        self.loc_rib@
    }

    /// The RPKI validator the RIB consults.
    pub closed spec fn validator(&self) -> RpkiValidator {
        self.rpki
    }

    /// The arrival number the next update's routes get.
    pub closed spec fn arrivals(&self) -> u64 {
        self.next_seq
    }

    /// The tables are well formed: one entry per peer, one route per prefix,
    /// each route filed under the peer that sent it.
    pub closed spec fn tables_wf(&self) -> bool {
        &&& forall|i: int| 0 <= i < self.adj_rib_in@.len() ==> (#[trigger] self.adj_rib_in@[i]).routes.wf()
        &&& self.loc_rib.wf()
        &&& peers_unique(self.adj())
        &&& adj_ok(self.adj())
    }

    /// The RIB's invariant: well-formed tables, and for every prefix the
    /// Loc-RIB holds the outcome of the decision process.
    pub closed spec fn wf(&self) -> bool {
        &&& self.tables_wf()
        &&& forall|k: PrefixKey| #[trigger] agrees_at(self.adj(), self.loc(), k)
    }

    /// An empty RIB with RPKI validation disabled.
    pub fn new() -> (r: Self)
        ensures
            r.wf(),
            r.adj() == Seq::<(SocketAddress, Map<PrefixKey, RouteView>)>::empty(),
            r.loc() == Map::<PrefixKey, RouteView>::empty(),
            r.validator().mode == RpkiMode::Disabled,
            r.validator().roas@.len() == 0,
            r.arrivals() == 0,
    {
        let r = Rib {
            adj_rib_in: Vec::new(),
            loc_rib: RouteTable::new(),
            rpki: RpkiValidator::default(),
            next_seq: 0,
        };
        assert(r.adj() =~= Seq::<(SocketAddress, Map<PrefixKey, RouteView>)>::empty());
        assert forall|k: PrefixKey| #[trigger] agrees_at(r.adj(), r.loc(), k) by {
            assert(candidates(r.adj(), k).len() == 0);
        }
        r
    }

    /// Whether `a` is preferred to `b` by the decision process.
    fn prefer(a: &Route, b: &Route) -> (r: bool)
        ensures
            r == better(a@, b@),
    {
        let a_lp: u32 = match a.attrs.local_pref {
            Some(v) => v,
            None => 100,
        };
        let b_lp: u32 = match b.attrs.local_pref {
            Some(v) => v,
            None => 100,
        };
        if a_lp != b_lp {
            return a_lp > b_lp;
        }
        let a_len: usize = match a.attrs.as_path_len_checked() {
            Some(n) => n,
            None => usize::MAX,
        };
        let b_len: usize = match b.attrs.as_path_len_checked() {
            Some(n) => n,
            None => usize::MAX,
        };
        if a_len != b_len {
            return a_len < b_len;
        }
        let a_origin: u8 = match a.attrs.origin {
            Some(o) => o.code(),
            None => 2,
        };
        let b_origin: u8 = match b.attrs.origin {
            Some(o) => o.code(),
            None => 2,
        };
        if a_origin != b_origin {
            return a_origin < b_origin;
        }
        let a_med: u32 = match a.attrs.multi_exit_disc {
            Some(v) => v,
            None => 0,
        };
        let b_med: u32 = match b.attrs.multi_exit_disc {
            Some(v) => v,
            None => 0,
        };
        if a_med != b_med {
            return a_med < b_med;
        }
        a.received_at < b.received_at
    }

    /// BGP decision process (RFC 4271 9.1) for one prefix: the Loc-RIB gets
    /// the best route that any peer holds for it, or loses the prefix.
    fn run_decision_process(&mut self, key: &PrefixKey)
        requires
            old(self).tables_wf(),
        ensures
            final(self).tables_wf(),
            final(self).adj() == old(self).adj(),
            final(self).rpki == old(self).rpki,
            final(self).next_seq == old(self).next_seq,
            final(self).loc() == (match decision(old(self).adj(), *key) {
                None => old(self).loc().remove(*key),
                Some(b) => old(self).loc().insert(*key, b),
            }),
    {
        let ghost adj = self.adj();
        let mut best: Option<&Route> = None;
        let ghost mut bi: int = 0;
        let mut i: usize = 0;
        while i < self.adj_rib_in.len()
            invariant
                i <= self.adj_rib_in@.len(),
                self.tables_wf(),
                adj == self.adj(),
                ({
                    let cs = candidates(adj.take(i as int), *key);
                    &&& (best is None <==> cs.len() == 0)
                    &&& best is Some ==> {
                        &&& 0 <= bi < cs.len()
                        &&& best->0@ == cs[bi]
                        &&& key_of(best->0.prefix) == *key
                        &&& forall|j: int| 0 <= j < bi ==> better(cs[bi], #[trigger] cs[j])
                        &&& forall|j: int| 0 <= j < cs.len() ==> !better(#[trigger] cs[j], cs[bi])
                    }
                }),
            decreases self.adj_rib_in@.len() - i,
        {
            let ghost cs = candidates(adj.take(i as int), *key);
            proof {
                assert(adj.take(i + 1).drop_last() =~= adj.take(i as int));
                assert(adj.take(i + 1).last() == adj[i as int]);
                assert(adj[i as int] == (self.adj_rib_in@[i as int].addr, self.adj_rib_in@[i as int].routes@));
                assert(self.adj_rib_in@[i as int].routes.wf());
            }
            match self.adj_rib_in[i].routes.get(key) {
                Some(r) => {
                    proof {
                        assert(adj[i as int].1.contains_key(*key));
                    }
                    let replace = match best {
                        None => true,
                        Some(b) => Self::prefer(r, b),
                    };
                    proof {
                        let cs2 = cs.push(r@);
                        assert(candidates(adj.take(i + 1), *key) == cs2);
                        if best is Some {
                            let b = best->0@;
                            assert forall|j: int| 0 <= j < cs.len() implies #[trigger] cs2[j] == cs[j] by {}
                            if replace {
                                assert forall|j: int| 0 <= j < cs.len() implies better(r@, #[trigger] cs2[j]) by {
                                    lemma_better_order(r@, b, cs[j]);
                                    if j < bi {
                                        lemma_better_order(cs[bi], cs[j], r@);
                                    }
                                }
                                assert forall|j: int| 0 <= j < cs2.len() implies !better(#[trigger] cs2[j], r@) by {
                                    if j < cs.len() {
                                        lemma_better_order(r@, cs[j], r@);
                                    } else {
                                        lemma_better_order(r@, r@, r@);
                                    }
                                }
                                bi = cs.len() as int;
                            } else {
                                assert forall|j: int| 0 <= j < bi implies better(cs2[bi], #[trigger] cs2[j]) by {}
                                assert forall|j: int| 0 <= j < cs2.len() implies !better(#[trigger] cs2[j], cs2[bi]) by {}
                            }
                        } else {
                            bi = 0;
                            lemma_better_order(r@, r@, r@);
                        }
                    }
                    if replace {
                        best = Some(r);
                    }
                },
                None => {
                    proof {
                        assert(!adj[i as int].1.contains_key(*key));
                        assert(candidates(adj.take(i + 1), *key) == cs);
                    }
                },
            }
            i = i + 1;
        }
        proof {
            assert(adj.take(i as int) =~= adj);
        }
        let chosen: Option<Route> = match best {
            Some(b) => Some(b.duplicate()),
            None => None,
        };
        match chosen {
            Some(route) => {
                proof {
                    let cs = candidates(adj, *key);
                    assert forall|j: int| 0 <= j < bi implies !unbeaten(cs)(#[trigger] cs[j]) by {
                        assert(better(cs[bi], cs[j]));
                    }
                    lemma_first_where(cs, unbeaten(cs), bi);
                }
                self.loc_rib.insert(route);
            },
            None => {
                self.loc_rib.remove(key);
            },
        }
    }

    proof fn lemma_adj_at(&self, i: int)
        requires
            0 <= i < self.adj_rib_in@.len(),
        ensures
            self.adj()[i] == (self.adj_rib_in@[i].addr, self.adj_rib_in@[i].routes@),
            self.adj().len() == self.adj_rib_in@.len(),
    {
    }

    /// The position of `peer`'s Adj-RIB-In.
    fn peer_position(&self, peer: &SocketAddress) -> (r: Option<usize>)
        ensures
            match r {
                Some(i) => i < self.adj_rib_in@.len() && peer_index(self.adj(), *peer) == i,
                None => peer_index(self.adj(), *peer) < 0,
            },
    {
        let ghost adj = self.adj();
        let mut i: usize = 0;
        while i < self.adj_rib_in.len()
            invariant
                i <= self.adj_rib_in@.len(),
                adj == self.adj(),
                adj.len() == self.adj_rib_in@.len(),
                forall|j: int| 0 <= j < i ==> !peer_is(*peer)(#[trigger] adj[j]),
            decreases self.adj_rib_in@.len() - i,
        {
            proof {
                self.lemma_adj_at(i as int);
            }
            if self.adj_rib_in[i].addr.same(peer) {
                proof {
                    lemma_first_where(adj, peer_is(*peer), i as int);
                }
                return Some(i);
            }
            i = i + 1;
        }
        proof {
            lemma_first_where(adj, peer_is(*peer), adj.len() as int);
        }
        None
    }

    /// The position of `peer`'s Adj-RIB-In, created empty (last) if missing.
    fn peer_slot(&mut self, peer: SocketAddress) -> (idx: usize)
        requires
            old(self).tables_wf(),
        ensures
            final(self).tables_wf(),
            final(self).loc_rib == old(self).loc_rib,
            final(self).rpki == old(self).rpki,
            final(self).next_seq == old(self).next_seq,
            idx < final(self).adj().len(),
            final(self).adj()[idx as int].0 == peer,
            final(self).adj()[idx as int].1 == peer_routes(old(self).adj(), peer),
            final(self).adj() == with_peer_routes(old(self).adj(), peer, peer_routes(old(self).adj(), peer)),
            idx == (if peer_index(old(self).adj(), peer) < 0 {
                old(self).adj().len() as int
            } else {
                peer_index(old(self).adj(), peer)
            }),
    {
        let ghost adj = self.adj();
        match self.peer_position(&peer) {
            Some(i) => {
                proof {
                    lemma_first_where_meaning(adj, peer_is(peer));
                    self.lemma_adj_at(i as int);
                    assert(adj.update(i as int, (peer, adj[i as int].1)) =~= adj);
                }
                i
            },
            None => {
                let n = self.adj_rib_in.len();
                self.adj_rib_in.push(PeerRib { addr: peer, routes: RouteTable::new() });
                proof {
                    lemma_first_where_meaning(adj, peer_is(peer));
                    assert(self.adj() =~= adj.push((peer, Map::<PrefixKey, RouteView>::empty())));
                    assert forall|a: int, b: int| 0 <= a < b < self.adj().len() implies self.adj()[a].0
                        != self.adj()[b].0 by {
                        if b == n {
                            assert(!peer_is(peer)(adj[a]));
                        } else {
                            assert(self.adj()[a] == adj[a] && self.adj()[b] == adj[b]);
                        }
                    }
                    assert forall|i: int, k: PrefixKey| 0 <= i < self.adj().len() && #[trigger] self.adj()[i].1.contains_key(k)
                        implies self.adj()[i].1[k].peer_addr == self.adj()[i].0 by {
                        assert(i < n);
                        assert(self.adj()[i] == adj[i]);
                    }
                    assert forall|i: int| 0 <= i < self.adj_rib_in@.len() implies (#[trigger] self.adj_rib_in@[i]).routes.wf() by {
                        if i < n {
                            assert(self.adj_rib_in@[i] == old(self).adj_rib_in@[i]);
                        }
                    }
                }
                n
            },
        }
    }

    /// Runs the decision process for each of `keys`.
    fn decide_keys(&mut self, keys: &[PrefixKey])
        requires
            old(self).tables_wf(),
        ensures
            final(self).tables_wf(),
            final(self).adj() == old(self).adj(),
            final(self).rpki == old(self).rpki,
            final(self).next_seq == old(self).next_seq,
            forall|k: PrefixKey| #[trigger] final(self).loc().get(k) == (if keys@.contains(k) {
                decision(old(self).adj(), k)
            } else {
                old(self).loc().get(k)
            }),
    {
        let ghost adj = self.adj();
        let ghost loc0 = self.loc();
        let mut j: usize = 0;
        while j < keys.len()
            invariant
                j <= keys@.len(),
                self.tables_wf(),
                self.adj() == adj,
                self.rpki == old(self).rpki,
                self.next_seq == old(self).next_seq,
                forall|k: PrefixKey| #[trigger] self.loc().get(k) == (if keys@.take(j as int).contains(k) {
                    decision(adj, k)
                } else {
                    loc0.get(k)
                }),
            decreases keys@.len() - j,
        {
            let ghost before = self.loc();
            self.run_decision_process(&keys[j]);
            proof {
                assert forall|k: PrefixKey| #[trigger] self.loc().get(k) == (if keys@.take(j + 1).contains(k) {
                    decision(adj, k)
                } else {
                    loc0.get(k)
                }) by {
                    lemma_take_push_contains(keys@, j as int, k);
                    if k != keys@[j as int] {
                        assert(self.loc().get(k) == before.get(k));
                    }
                }
            }
            j = j + 1;
        }
        proof {
            assert(keys@.take(j as int) =~= keys@);
        }
    }

    /// Files the admitted advertisements of an update in the Adj-RIB-In at
    /// `idx`; hands back their keys.
    fn insert_admitted(
        &mut self,
        idx: usize,
        peer_addr: SocketAddress,
        peer_as: u32,
        nlri: &[Prefix],
        attrs: &PathAttributes,
        suppressed: &[bool],
        seq: u64,
    ) -> (affected: Vec<PrefixKey>)
        requires
            old(self).tables_wf(),
            idx < old(self).adj().len(),
            old(self).adj()[idx as int].0 == peer_addr,
            suppressed@.len() == nlri@.len(),
        ensures
            final(self).tables_wf(),
            final(self).loc_rib == old(self).loc_rib,
            final(self).rpki == old(self).rpki,
            final(self).next_seq == old(self).next_seq,
            final(self).adj() == old(self).adj().update(
                idx as int,
                (
                    peer_addr,
                    old(self).adj()[idx as int].1.union_prefer_right(
                        admitted_routes(
                            old(self).rpki,
                            nlri@,
                            suppressed@,
                            attrs@,
                            peer_addr,
                            peer_as,
                            seq,
                        ),
                    ),
                ),
            ),
            forall|k: PrefixKey| #[trigger] affected@.contains(k) == is_admitted_key(
                old(self).rpki,
                nlri@,
                suppressed@,
                peer_as,
                k,
            ),
    {
        let ghost adj0 = self.adj();
        let ghost m0 = adj0[idx as int].1;
        let ghost v = self.rpki;
        let mut affected: Vec<PrefixKey> = Vec::new();
        proof {
            self.lemma_adj_at(idx as int);
            assert(admitted_routes(v, nlri@.take(0), suppressed@.take(0), attrs@, peer_addr, peer_as, seq)
                =~= Map::<PrefixKey, RouteView>::empty());
            assert(m0.union_prefer_right(Map::<PrefixKey, RouteView>::empty()) =~= m0);
        }
        let mut j: usize = 0;
        while j < nlri.len()
            invariant
                j <= nlri@.len(),
                suppressed@.len() == nlri@.len(),
                    idx < self.adj_rib_in@.len(),
                self.adj_rib_in@.len() == old(self).adj_rib_in@.len(),
                forall|i: int| 0 <= i < self.adj_rib_in@.len() && i != idx ==> self.adj_rib_in@[i] == old(self).adj_rib_in@[i],
                self.adj_rib_in@[idx as int].addr == peer_addr,
                self.adj_rib_in@[idx as int].routes.wf(),
                self.adj_rib_in@[idx as int].routes@ == m0.union_prefer_right(
                    admitted_routes(v, nlri@.take(j as int), suppressed@.take(j as int), attrs@, peer_addr, peer_as, seq),
                ),
                adj0 == old(self).adj(),
                old(self).tables_wf(),
                m0 == adj0[idx as int].1,
                v == old(self).rpki,
                self.rpki == old(self).rpki,
                self.loc_rib == old(self).loc_rib,
                self.next_seq == old(self).next_seq,
                forall|k: PrefixKey| #[trigger] affected@.contains(k) == is_admitted_key(
                    v,
                    nlri@.take(j as int),
                    suppressed@.take(j as int),
                    peer_as,
                    k,
                ),
            decreases nlri@.len() - j,
        {
            let p = nlri[j];
            let rov = self.rpki.validate(p.address, p.prefix_len, peer_as);
            let reject = self.rpki.should_reject(rov);
            let ghost a_before = admitted_routes(v, nlri@.take(j as int), suppressed@.take(j as int), attrs@, peer_addr, peer_as, seq);
            let ghost a_after = admitted_routes(v, nlri@.take(j + 1), suppressed@.take(j + 1), attrs@, peer_addr, peer_as, seq);
            proof {
                assert forall|k: PrefixKey| #[trigger] is_admitted_key(v, nlri@.take(j + 1), suppressed@.take(j + 1), peer_as, k)
                    == (is_admitted_key(v, nlri@.take(j as int), suppressed@.take(j as int), peer_as, k) || (key_of(nlri@[j as int]) == k
                        && admitted(v, nlri@[j as int], peer_as, suppressed@[j as int]))) by {
                    lemma_admitted_step(v, nlri@, suppressed@, peer_as, j as int, k);
                }
            }
            if !suppressed[j] && !reject {
                let mut route = Route::new(p, attrs.duplicate(), peer_addr, peer_as, seq);
                route.rov_state = rov;
                let key = PrefixKey::from_prefix(&p);
                proof {
                    assert(prefix_of(key_of(p)) == p);
                    assert(route@ == fresh_route(v, p, attrs@, peer_addr, peer_as, seq));
                    assert(a_after =~= a_before.insert(key_of(p), route@));
                    assert(m0.union_prefer_right(a_after) =~= m0.union_prefer_right(a_before).insert(key_of(p), route@));
                }
                self.adj_rib_in[idx].routes.insert(route);
                let ghost aff_before = affected@;
                affected.push(key);
                proof {
                    assert(admitted(v, nlri@[j as int], peer_as, suppressed@[j as int]));
                    assert forall|k: PrefixKey| #[trigger] affected@.contains(k) == is_admitted_key(
                        v,
                        nlri@.take(j + 1),
                        suppressed@.take(j + 1),
                        peer_as,
                        k,
                    ) by {
                        lemma_push_contains(aff_before, key, k);
                        assert(aff_before.contains(k) == is_admitted_key(
                            v,
                            nlri@.take(j as int),
                            suppressed@.take(j as int),
                            peer_as,
                            k,
                        ));
                    }
                }
            } else {
                proof {
                    assert(a_after =~= a_before);
                }
            }
            j = j + 1;
        }
        proof {
            assert(nlri@.take(j as int) =~= nlri@);
            assert(suppressed@.take(j as int) =~= suppressed@);
            let a = admitted_routes(v, nlri@, suppressed@, attrs@, peer_addr, peer_as, seq);
            assert(self.adj() =~= adj0.update(idx as int, (peer_addr, m0.union_prefer_right(a)))) by {
                assert forall|i: int| 0 <= i < self.adj().len() implies #[trigger] self.adj()[i] == adj0.update(idx as int, (peer_addr, m0.union_prefer_right(a)))[i] by {
                    self.lemma_adj_at(i);
                    old(self).lemma_adj_at(i);
                }
            }
            assert(peers_unique(self.adj())) by {
                assert forall|a1: int, b1: int| 0 <= a1 < b1 < self.adj().len() implies self.adj()[a1].0 != self.adj()[b1].0 by {
                    assert(adj0[a1].0 != adj0[b1].0);
                }
            }
            assert forall|i: int, k: PrefixKey| 0 <= i < self.adj().len() && #[trigger] self.adj()[i].1.contains_key(k)
                implies self.adj()[i].1[k].peer_addr == self.adj()[i].0 by {
                if i == idx && !m0.contains_key(k) {
                    assert(a.contains_key(k));
                    assert(self.adj()[i].1[k] == fresh_route(v, prefix_of(k), attrs@, peer_addr, peer_as, seq));
                } else if i == idx {
                    if a.contains_key(k) {
                        assert(self.adj()[i].1[k] == fresh_route(v, prefix_of(k), attrs@, peer_addr, peer_as, seq));
                    } else {
                        assert(adj0[i].1.contains_key(k));
                    }
                } else {
                    assert(adj0[i] == self.adj()[i]);
                }
            }
            assert forall|i: int| 0 <= i < self.adj_rib_in@.len() implies (#[trigger] self.adj_rib_in@[i]).routes.wf() by {
                if i != idx {
                    assert(self.adj_rib_in@[i] == old(self).adj_rib_in@[i]);
                }
            }
        }
        affected
    }

    /// Removes `keys` from the Adj-RIB-In at `idx`.
    fn remove_keys_at(&mut self, idx: usize, keys: &[PrefixKey])
        requires
            old(self).tables_wf(),
            idx < old(self).adj().len(),
        ensures
            final(self).tables_wf(),
            final(self).loc_rib == old(self).loc_rib,
            final(self).rpki == old(self).rpki,
            final(self).next_seq == old(self).next_seq,
            final(self).adj() == old(self).adj().update(
                idx as int,
                (
                    old(self).adj()[idx as int].0,
                    old(self).adj()[idx as int].1.remove_keys(keys@.to_set()),
                ),
            ),
    {
        let ghost adj0 = self.adj();
        let ghost m0 = adj0[idx as int].1;
        let ghost addr = adj0[idx as int].0;
        proof {
            self.lemma_adj_at(idx as int);
            assert(m0.remove_keys(keys@.take(0).to_set()) =~= m0);
        }
        let mut j: usize = 0;
        while j < keys.len()
            invariant
                j <= keys@.len(),
                idx < self.adj_rib_in@.len(),
                self.adj_rib_in@.len() == old(self).adj_rib_in@.len(),
                forall|i: int| 0 <= i < self.adj_rib_in@.len() && i != idx ==> self.adj_rib_in@[i] == old(self).adj_rib_in@[i],
                self.adj_rib_in@[idx as int].addr == addr,
                self.adj_rib_in@[idx as int].routes.wf(),
                self.adj_rib_in@[idx as int].routes@ == m0.remove_keys(keys@.take(j as int).to_set()),
                adj0 == old(self).adj(),
                old(self).tables_wf(),
                m0 == adj0[idx as int].1,
                addr == adj0[idx as int].0,
                self.rpki == old(self).rpki,
                self.loc_rib == old(self).loc_rib,
                self.next_seq == old(self).next_seq,
            decreases keys@.len() - j,
        {
            proof {
                assert forall|k: PrefixKey| #[trigger] keys@.take(j + 1).to_set().contains(k)
                    == (keys@.take(j as int).to_set().contains(k) || k == keys@[j as int]) by {
                    lemma_take_push_contains(keys@, j as int, k);
                }
                assert(m0.remove_keys(keys@.take(j + 1).to_set()) =~= m0.remove_keys(
                    keys@.take(j as int).to_set(),
                ).remove(keys@[j as int]));
            }
            self.adj_rib_in[idx].routes.remove(&keys[j]);
            j = j + 1;
        }
        proof {
            assert(keys@.take(j as int) =~= keys@);
            let m1 = m0.remove_keys(keys@.to_set());
            assert(self.adj() =~= adj0.update(idx as int, (addr, m1))) by {
                assert forall|i: int| 0 <= i < self.adj().len() implies #[trigger] self.adj()[i] == adj0.update(idx as int, (addr, m1))[i] by {
                    self.lemma_adj_at(i);
                    old(self).lemma_adj_at(i);
                }
            }
            assert(peers_unique(self.adj())) by {
                assert forall|a1: int, b1: int| 0 <= a1 < b1 < self.adj().len() implies self.adj()[a1].0 != self.adj()[b1].0 by {
                    assert(adj0[a1].0 != adj0[b1].0);
                }
            }
            assert forall|i: int, k: PrefixKey| 0 <= i < self.adj().len() && #[trigger] self.adj()[i].1.contains_key(k)
                implies self.adj()[i].1[k].peer_addr == self.adj()[i].0 by {
                assert(adj0[i].1.contains_key(k));
            }
            assert forall|i: int| 0 <= i < self.adj_rib_in@.len() implies (#[trigger] self.adj_rib_in@[i]).routes.wf() by {
                if i != idx {
                    assert(self.adj_rib_in@[i] == old(self).adj_rib_in@[i]);
                }
            }
        }
    }
}

impl Rib {
    /// Process received routes from a peer, with a dampening verdict for each
    /// advertised prefix: the admitted advertisements (not suppressed, not
    /// RPKI-invalid under strict validation) replace or join the peer's
    /// Adj-RIB-In, the withdrawn prefixes leave it, and the decision process
    /// runs again for every prefix touched.
    pub fn process_update_with_suppression(
        &mut self,
        peer_addr: SocketAddress,
        peer_as: u32,
        nlri: &[Prefix],
        attrs: &PathAttributes,
        withdrawn: &[Prefix],
        suppressed: &[bool],
    )
        requires
            old(self).wf(),
            suppressed@.len() == nlri@.len(),
        ensures
            final(self).wf(),
            final(self).validator() == old(self).validator(),
            final(self).arrivals() == (if old(self).arrivals() < u64::MAX {
                (old(self).arrivals() + 1) as u64
            } else {
                old(self).arrivals()
            }),
            final(self).adj() == with_peer_routes(
                old(self).adj(),
                peer_addr,
                routes_after_update(
                    peer_routes(old(self).adj(), peer_addr),
                    old(self).validator(),
                    nlri@,
                    suppressed@,
                    attrs@,
                    peer_addr,
                    peer_as,
                    old(self).arrivals(),
                    withdrawn@,
                ),
            ),
            forall|k: PrefixKey| #[trigger] final(self).loc().get(k) == (if is_admitted_key(
                old(self).validator(),
                nlri@,
                suppressed@,
                peer_as,
                k,
            ) || withdrawn_keys(withdrawn@).contains(k) {
                decision(final(self).adj(), k)
            } else {
                old(self).loc().get(k)
            }),
    {
        let ghost adj0 = self.adj();
        let ghost loc0 = self.loc();
        let ghost v = self.rpki;
        let seq = self.next_seq;
        if self.next_seq < u64::MAX {
            self.next_seq = self.next_seq + 1;
        }
        let idx = self.peer_slot(peer_addr);
        let ghost m0 = peer_routes(adj0, peer_addr);
        let ghost adj1 = self.adj();
        let affected = self.insert_admitted(idx, peer_addr, peer_as, nlri, attrs, suppressed, seq);
        let ghost adj2 = self.adj();
        let wkeys = keys_of(withdrawn);
        proof {
            assert forall|k: PrefixKey| wkeys@.contains(k) == withdrawn_keys(withdrawn@).contains(k) by {
                if wkeys@.contains(k) {
                    let j = choose|j: int| 0 <= j < wkeys@.len() && wkeys@[j] == k;
                    assert(key_of(withdrawn@[j]) == k);
                }
                if withdrawn_keys(withdrawn@).contains(k) {
                    let j = choose|j: int| 0 <= j < withdrawn@.len() && key_of(#[trigger] withdrawn@[j]) == k;
                    assert(wkeys@[j] == k);
                }
            }
            assert(wkeys@.to_set() =~= withdrawn_keys(withdrawn@));
        }
        self.remove_keys_at(idx, &wkeys);
        let ghost adj3 = self.adj();
        proof {
            lemma_first_where_meaning(adj0, peer_is(peer_addr));
            assert(adj1[idx as int] == (peer_addr, m0));
            assert(adj2[idx as int].1 == m0.union_prefer_right(
                admitted_routes(v, nlri@, suppressed@, attrs@, peer_addr, peer_as, seq),
            ));
            assert(adj2[idx as int].0 == peer_addr);
        }
        let ghost a = admitted_routes(v, nlri@, suppressed@, attrs@, peer_addr, peer_as, seq);
        let ghost mf = routes_after_update(m0, v, nlri@, suppressed@, attrs@, peer_addr, peer_as, seq, withdrawn@);
        proof {
            if peer_index(adj0, peer_addr) < 0 {
                assert(adj3 =~= adj0.push((peer_addr, mf)));
            } else {
                assert(adj3 =~= adj0.update(idx as int, (peer_addr, mf)));
            }
            assert(adj3 == with_peer_routes(adj0, peer_addr, mf));
        }
        self.decide_keys(&affected);
        let ghost loc1 = self.loc();
        self.decide_keys(&wkeys);
        proof {
            assert forall|k: PrefixKey| #[trigger] self.loc().get(k) == (if is_admitted_key(v, nlri@, suppressed@, peer_as, k)
                || withdrawn_keys(withdrawn@).contains(k) {
                decision(adj3, k)
            } else {
                loc0.get(k)
            }) by {
                assert(loc1.get(k) == (if affected@.contains(k) { decision(adj3, k) } else { loc0.get(k) }));
                assert(affected@.contains(k) == is_admitted_key(v, nlri@, suppressed@, peer_as, k));
                assert(wkeys@.to_set().contains(k) == withdrawn_keys(withdrawn@).contains(k));
            }
            assert forall|k: PrefixKey| #[trigger] agrees_at(self.adj(), self.loc(), k) by {
                assert(self.loc().get(k) == (if is_admitted_key(v, nlri@, suppressed@, peer_as, k)
                    || withdrawn_keys(withdrawn@).contains(k) {
                    decision(adj3, k)
                } else {
                    loc0.get(k)
                }));
                if is_admitted_key(v, nlri@, suppressed@, peer_as, k) || withdrawn_keys(withdrawn@).contains(k) {
                } else {
                    assert(agrees_at(adj0, loc0, k));
                    assert(!a.contains_key(k));
                    let i = peer_index(adj0, peer_addr);
                    if i < 0 {
                        assert(!mf.contains_key(k));
                        lemma_candidates_push_absent(adj0, (peer_addr, mf), k);
                    } else {
                        lemma_first_where_meaning(adj0, peer_is(peer_addr));
                        assert forall|x: int| 0 <= x < adj3.len() implies agree_on(#[trigger] adj3[x].1, adj0[x].1, k) by {
                            if x != i {
                                assert(adj3[x] == adj0[x]);
                            }
                        }
                        lemma_candidates_frame(adj3, adj0, k);
                    }
                    assert(decision(adj3, k) == decision(adj0, k));
                }
            }
        }
    }

    /// Process received routes from a peer: update Adj-RIB-In and run the
    /// decision process, with no advertisement suppressed.
    pub fn process_update(
        &mut self,
        peer_addr: SocketAddress,
        peer_as: u32,
        nlri: &[Prefix],
        attrs: &PathAttributes,
        withdrawn: &[Prefix],
    )
        requires
            old(self).wf(),
        ensures
            final(self).wf(),
            final(self).validator() == old(self).validator(),
            final(self).arrivals() == (if old(self).arrivals() < u64::MAX {
                (old(self).arrivals() + 1) as u64
            } else {
                old(self).arrivals()
            }),
            final(self).adj() == with_peer_routes(
                old(self).adj(),
                peer_addr,
                routes_after_update(
                    peer_routes(old(self).adj(), peer_addr),
                    old(self).validator(),
                    nlri@,
                    Seq::new(nlri@.len(), |i: int| false),
                    attrs@,
                    peer_addr,
                    peer_as,
                    old(self).arrivals(),
                    withdrawn@,
                ),
            ),
            forall|k: PrefixKey| #[trigger] final(self).loc().get(k) == (if is_admitted_key(
                old(self).validator(),
                nlri@,
                Seq::new(nlri@.len(), |i: int| false),
                peer_as,
                k,
            ) || withdrawn_keys(withdrawn@).contains(k) {
                decision(final(self).adj(), k)
            } else {
                old(self).loc().get(k)
            }),
    {
        let mut none: Vec<bool> = Vec::new();
        let mut i: usize = 0;
        while i < nlri.len()
            invariant
                i <= nlri@.len(),
                none@ == Seq::new(i as nat, |j: int| false),
            decreases nlri@.len() - i,
        {
            none.push(false);
            i = i + 1;
            assert(none@ =~= Seq::new(i as nat, |j: int| false));
        }
        self.process_update_with_suppression(peer_addr, peer_as, nlri, attrs, withdrawn, &none);
    }
}

impl Rib {
    proof fn lemma_remove_entry(&self, i: int, r: Self)
        requires
            self.tables_wf(),
            0 <= i < self.adj_rib_in@.len(),
            r.adj_rib_in@ == self.adj_rib_in@.remove(i),
            r.loc_rib == self.loc_rib,
        ensures
            r.adj() == self.adj().remove(i),
            r.tables_wf(),
    {
        assert(r.adj() =~= self.adj().remove(i));
        let a = self.adj();
        let b = r.adj();
        assert forall|x: int, y: int| 0 <= x < y < b.len() implies b[x].0 != b[y].0 by {
            let x2 = if x < i { x } else { x + 1 };
            let y2 = if y < i { y } else { y + 1 };
            assert(b[x] == a[x2] && b[y] == a[y2]);
        }
        assert forall|x: int, k: PrefixKey| 0 <= x < b.len() && #[trigger] b[x].1.contains_key(k) implies b[x].1[k].peer_addr == b[x].0 by {
            let x2 = if x < i { x } else { x + 1 };
            assert(b[x] == a[x2]);
        }
        assert forall|x: int| 0 <= x < r.adj_rib_in@.len() implies (#[trigger] r.adj_rib_in@[x]).routes.wf() by {
            let x2 = if x < i { x } else { x + 1 };
            assert(r.adj_rib_in@[x] == self.adj_rib_in@[x2]);
        }
    }

    /// Remove all routes from a disconnected peer; hands back the prefixes it
    /// had sent, each once.
    pub fn remove_peer(&mut self, peer_addr: SocketAddress) -> (r: Vec<PrefixKey>)
        requires
            old(self).wf(),
        ensures
            final(self).wf(),
            final(self).validator() == old(self).validator(),
            final(self).arrivals() == old(self).arrivals(),
            r@.no_duplicates(),
            r@.to_set() == peer_routes(old(self).adj(), peer_addr).dom(),
            peer_index(final(self).adj(), peer_addr) < 0,
            final(self).adj() == (if peer_index(old(self).adj(), peer_addr) < 0 {
                old(self).adj()
            } else {
                old(self).adj().remove(peer_index(old(self).adj(), peer_addr))
            }),
            forall|k: PrefixKey| #[trigger] final(self).loc().get(k) == (if r@.contains(k) {
                decision(final(self).adj(), k)
            } else {
                old(self).loc().get(k)
            }),
    {
        let ghost adj0 = self.adj();
        let ghost loc0 = self.loc();
        match self.peer_position(&peer_addr) {
            None => {
                let r: Vec<PrefixKey> = Vec::new();
                proof {
                    assert(r@.to_set() =~= Set::<PrefixKey>::empty());
                    assert(peer_routes(adj0, peer_addr).dom() =~= Set::<PrefixKey>::empty());
                }
                r
            },
            Some(i) => {
                let ghost pre = *self;
                proof {
                    self.lemma_adj_at(i as int);
                    assert(self.adj_rib_in@[i as int].routes.wf());
                }
                let entry = self.adj_rib_in.remove(i);
                proof {
                    pre.lemma_remove_entry(i as int, *self);
                    assert(entry == pre.adj_rib_in@[i as int]);
                    pre.lemma_adj_at(i as int);
                }
                let keys = entry.routes.keys();
                let ghost adj1 = self.adj();
                proof {
                    lemma_first_where_meaning(adj0, peer_is(peer_addr));
                    assert forall|j: int| 0 <= j < adj1.len() implies !peer_is(peer_addr)(#[trigger] adj1[j]) by {
                        let j2 = if j < i { j } else { j + 1 };
                        assert(adj1[j] == adj0[j2]);
                    }
                    lemma_first_where(adj1, peer_is(peer_addr), adj1.len() as int);
                }
                self.decide_keys(&keys);
                proof {
                    assert forall|k: PrefixKey| #[trigger] agrees_at(self.adj(), self.loc(), k) by {
                        assert(self.loc().get(k) == (if keys@.contains(k) { decision(adj1, k) } else { loc0.get(k) }));
                        if !keys@.contains(k) {
                            assert(!keys@.to_set().contains(k));
                            assert(!adj0[i as int].1.contains_key(k));
                            lemma_candidates_remove_absent(adj0, i as int, k);
                            assert(agrees_at(adj0, loc0, k));
                        }
                    }
                }
                keys
            },
        }
    }

    /// RFC 4724: mark all routes from a peer as stale (peer disconnected, may
    /// restart). The Loc-RIB is left as it is.
    pub fn mark_peer_stale(&mut self, peer_addr: SocketAddress)
        requires
            old(self).wf(),
        ensures
            final(self).wf(),
            final(self).validator() == old(self).validator(),
            final(self).arrivals() == old(self).arrivals(),
            final(self).loc() == old(self).loc(),
            final(self).adj() == marked_stale(old(self).adj(), peer_addr),
    {
        let ghost adj0 = self.adj();
        let ghost loc0 = self.loc();
        match self.peer_position(&peer_addr) {
            None => {},
            Some(i) => {
                proof {
                    self.lemma_adj_at(i as int);
                    assert(self.adj_rib_in@[i as int].routes.wf());
                    lemma_first_where_meaning(adj0, peer_is(peer_addr));
                }
                self.adj_rib_in[i].routes.mark_all_stale();
                proof {
                    let m = adj0[i as int].1.map_values(|r: RouteView| stale_view(r));
                    assert(self.adj() =~= adj0.update(i as int, (peer_addr, m))) by {
                        assert forall|x: int| 0 <= x < self.adj().len() implies #[trigger] self.adj()[x] == adj0.update(i as int, (peer_addr, m))[x] by {
                            self.lemma_adj_at(x);
                            old(self).lemma_adj_at(x);
                        }
                    }
                    let a = self.adj();
                    assert forall|x: int, y: int| 0 <= x < y < a.len() implies a[x].0 != a[y].0 by {
                        assert(adj0[x].0 != adj0[y].0);
                    }
                    assert forall|x: int, k: PrefixKey| 0 <= x < a.len() && #[trigger] a[x].1.contains_key(k) implies a[x].1[k].peer_addr == a[x].0 by {
                        assert(adj0[x].1.contains_key(k));
                    }
                    assert forall|x: int| 0 <= x < self.adj_rib_in@.len() implies (#[trigger] self.adj_rib_in@[x]).routes.wf() by {
                        if x != i {
                            assert(self.adj_rib_in@[x] == old(self).adj_rib_in@[x]);
                        }
                    }
                    assert forall|k: PrefixKey| #[trigger] agrees_at(self.adj(), self.loc(), k) by {
                        assert forall|x: int| 0 <= x < a.len() implies #[trigger] a[x].1.contains_key(k) == adj0[x].1.contains_key(k)
                            && (a[x].1.contains_key(k) ==> strip(a[x].1[k]) == strip(adj0[x].1[k])) by {
                            if x != i {
                                assert(a[x] == adj0[x]);
                            }
                        }
                        lemma_decision_strip(a, adj0, k);
                        assert(agrees_at(adj0, loc0, k));
                    }
                }
            },
        }
    }

    /// RFC 4724: remove all remaining stale routes for a peer (restart timer
    /// expired); a peer left with no route loses its Adj-RIB-In. Hands back
    /// the removed prefixes, each once.
    pub fn remove_stale_for_peer(&mut self, peer_addr: SocketAddress) -> (r: Vec<PrefixKey>)
        requires
            old(self).wf(),
        ensures
            final(self).wf(),
            final(self).validator() == old(self).validator(),
            final(self).arrivals() == old(self).arrivals(),
            r@.no_duplicates(),
            r@.to_set() == stale_keys_of(peer_routes(old(self).adj(), peer_addr)),
            final(self).adj() == swept(old(self).adj(), peer_addr, r@.to_set()),
            forall|k: PrefixKey| #[trigger] final(self).loc().get(k) == (if r@.contains(k) {
                decision(final(self).adj(), k)
            } else {
                old(self).loc().get(k)
            }),
    {
        let ghost adj0 = self.adj();
        let ghost loc0 = self.loc();
        match self.peer_position(&peer_addr) {
            None => {
                let r: Vec<PrefixKey> = Vec::new();
                proof {
                    assert(r@.to_set() =~= Set::<PrefixKey>::empty());
                    assert(stale_keys_of(peer_routes(adj0, peer_addr)) =~= Set::<PrefixKey>::empty());
                }
                r
            },
            Some(i) => {
                proof {
                    self.lemma_adj_at(i as int);
                    assert(self.adj_rib_in@[i as int].routes.wf());
                    lemma_first_where_meaning(adj0, peer_is(peer_addr));
                }
                let stale = self.adj_rib_in[i].routes.stale_keys();
                self.remove_keys_at(i, &stale);
                let ghost adj1 = self.adj();
                proof {
                    assert(self.adj().len() == self.adj_rib_in@.len());
                    self.lemma_adj_at(i as int);
                    assert(self.adj_rib_in@[i as int].routes.wf());
                }
                if self.adj_rib_in[i].routes.is_empty() {
                    let ghost pre = *self;
                    let _ = self.adj_rib_in.remove(i);
                    proof {
                        pre.lemma_remove_entry(i as int, *self);
                    }
                }
                self.decide_keys(&stale);
                proof {
                    let m = adj0[i as int].1.remove_keys(stale@.to_set());
                    assert forall|k: PrefixKey| #[trigger] agrees_at(self.adj(), self.loc(), k) by {
                        assert(self.loc().get(k) == (if stale@.contains(k) { decision(self.adj(), k) } else { loc0.get(k) }));
                        if !stale@.contains(k) {
                            assert(!stale@.to_set().contains(k));
                            assert(agrees_at(adj0, loc0, k));
                            assert forall|x: int| 0 <= x < adj1.len() implies agree_on(#[trigger] adj1[x].1, adj0[x].1, k) by {
                                if x != i {
                                    assert(adj1[x] == adj0[x]);
                                }
                            }
                            lemma_candidates_frame(adj1, adj0, k);
                            if m.len() == 0 {
                                assert(adj1[i as int].1 == m);
                                assert(!m.contains_key(k));
                                lemma_candidates_remove_absent(adj1, i as int, k);
                            }
                        }
                    }
                }
                stale
            },
        }
    }

    /// The number of stale routes in Adj-RIB-In across all peers (saturating
    /// at the largest `usize`).
    pub fn stale_route_count(&self) -> (r: usize)
        requires
            self.wf(),
        ensures
            r == (if stale_total(self.adj()) <= usize::MAX {
                stale_total(self.adj())
            } else {
                usize::MAX as nat
            }),
    {
        let ghost adj = self.adj();
        let mut total: usize = 0;
        let mut i: usize = 0;
        while i < self.adj_rib_in.len()
            invariant
                i <= self.adj_rib_in@.len(),
                self.tables_wf(),
                adj == self.adj(),
                total == (if stale_total(adj.take(i as int)) <= usize::MAX {
                    stale_total(adj.take(i as int))
                } else {
                    usize::MAX as nat
                }),
            decreases self.adj_rib_in@.len() - i,
        {
            proof {
                self.lemma_adj_at(i as int);
                assert(self.adj_rib_in@[i as int].routes.wf());
                assert(adj.take(i + 1).drop_last() =~= adj.take(i as int));
            }
            let c = self.adj_rib_in[i].routes.stale_count();
            if total > usize::MAX - c {
                total = usize::MAX;
            } else {
                total = total + c;
            }
            i = i + 1;
        }
        proof {
            assert(adj.take(i as int) =~= adj);
        }
        total
    }

    /// Get the Loc-RIB (best routes).
    pub fn loc_rib(&self) -> (r: &LocRib)
        requires
            self.wf(),
        ensures
            r.wf(),
            r@ == self.loc(),
    {
        &self.loc_rib
    }

    /// Get all routes from Adj-RIB-In for a peer.
    pub fn adj_rib_in(&self, peer_addr: &SocketAddress) -> (r: Option<&AdjRibIn>)
        requires
            self.wf(),
        ensures
            match r {
                Some(t) => peer_index(self.adj(), *peer_addr) >= 0 && t.wf() && t@ == peer_routes(
                    self.adj(),
                    *peer_addr,
                ),
                None => peer_index(self.adj(), *peer_addr) < 0,
            },
    {
        match self.peer_position(peer_addr) {
            Some(i) => {
                proof {
                    self.lemma_adj_at(i as int);
                    assert(self.adj_rib_in@[i as int].routes.wf());
                }
                Some(&self.adj_rib_in[i].routes)
            },
            None => None,
        }
    }

    /// Number of prefixes in the Loc-RIB.
    pub fn prefix_count(&self) -> (r: usize)
        requires
            self.wf(),
        ensures
            r == self.loc().len(),
    {
        self.loc_rib.len()
    }

    /// Longest Prefix Match: the most specific Loc-RIB entry covering `addr`
    /// (the default route, length 0, covers everything); `None` if no route
    /// covers the address. Among equally long entries any one may come back.
    pub fn longest_match(&self, addr: u32) -> (r: Option<(PrefixKey, &Route)>)
        requires
            self.wf(),
            forall|k: PrefixKey| #[trigger] self.loc().contains_key(k) ==> k.prefix_len <= 32,
        ensures
            match r {
                None => forall|k: PrefixKey| #[trigger] self.loc().contains_key(k) ==> !same_network(
                    addr,
                    k.address,
                    k.prefix_len,
                ),
                Some((k, rt)) => {
                    &&& self.loc().contains_key(k)
                    &&& self.loc()[k] == rt@
                    &&& same_network(addr, k.address, k.prefix_len)
                    &&& (k.prefix_len == 32 ==> k.address == addr)
                    &&& forall|k2: PrefixKey| #[trigger] self.loc().contains_key(k2) && same_network(
                        addr,
                        k2.address,
                        k2.prefix_len,
                    ) ==> k2.prefix_len <= k.prefix_len
                },
            },
    {
        let ks = self.loc_rib.keys();
        let ghost loc = self.loc();
        let mut best: Option<usize> = None;
        let mut j: usize = 0;
        while j < ks.len()
            invariant
                j <= ks@.len(),
                ks@.to_set() == loc.dom(),
                forall|k: PrefixKey| #[trigger] loc.contains_key(k) ==> k.prefix_len <= 32,
                match best {
                    None => forall|x: int| 0 <= x < j ==> !same_network(
                        addr,
                        (#[trigger] ks@[x]).address,
                        ks@[x].prefix_len,
                    ),
                    Some(b) => {
                        &&& b < j
                        &&& same_network(addr, ks@[b as int].address, ks@[b as int].prefix_len)
                        &&& forall|x: int| 0 <= x < j && same_network(
                            addr,
                            (#[trigger] ks@[x]).address,
                            ks@[x].prefix_len,
                        ) ==> ks@[x].prefix_len <= ks@[b as int].prefix_len
                    },
                },
            decreases ks@.len() - j,
        {
            let k = ks[j];
            proof {
                assert(ks@.to_set().contains(k));
                assert(loc.contains_key(k));
            }
            let covers = k.prefix_len == 0 || crate::net::high_bits(addr, k.prefix_len) == crate::net::high_bits(k.address, k.prefix_len);
            if covers {
                let take = match best {
                    None => true,
                    Some(b) => k.prefix_len >= ks[b].prefix_len,
                };
                if take {
                    best = Some(j);
                }
            }
            j = j + 1;
        }
        match best {
            None => {
                proof {
                    assert forall|k: PrefixKey| #[trigger] loc.contains_key(k) implies !same_network(addr, k.address, k.prefix_len) by {
                        assert(ks@.to_set().contains(k));
                        let x = choose|x: int| 0 <= x < ks@.len() && #[trigger] ks@[x] == k;
                        assert(!same_network(addr, ks@[x].address, ks@[x].prefix_len));
                    }
                }
                None
            },
            Some(b) => {
                let k = ks[b];
                proof {
                    assert(ks@.to_set().contains(k));
                    crate::net::lemma_same_network_bits(addr, k.address, k.prefix_len);
                    assert forall|k2: PrefixKey| #[trigger] loc.contains_key(k2) && same_network(addr, k2.address, k2.prefix_len)
                        implies k2.prefix_len <= k.prefix_len by {
                        assert(ks@.to_set().contains(k2));
                        let x = choose|x: int| 0 <= x < ks@.len() && #[trigger] ks@[x] == k2;
                        assert(same_network(addr, ks@[x].address, ks@[x].prefix_len));
                    }
                }
                match self.loc_rib.get(&k) {
                    Some(rt) => Some((k, rt)),
                    None => {
                        proof {
                            assert(false);
                        }
                        None
                    },
                }
            },
        }
    }

    /// Summary: (peer count, total Adj-RIB-In routes, Loc-RIB routes); the
    /// total saturates at the largest `usize`.
    pub fn summary(&self) -> (r: (usize, usize, usize))
        requires
            self.wf(),
        ensures
            r.0 == self.adj().len(),
            r.1 == (if route_total(self.adj()) <= usize::MAX {
                route_total(self.adj())
            } else {
                usize::MAX as nat
            }),
            r.2 == self.loc().len(),
    {
        let ghost adj = self.adj();
        let mut total: usize = 0;
        let mut i: usize = 0;
        while i < self.adj_rib_in.len()
            invariant
                i <= self.adj_rib_in@.len(),
                self.tables_wf(),
                adj == self.adj(),
                total == (if route_total(adj.take(i as int)) <= usize::MAX {
                    route_total(adj.take(i as int))
                } else {
                    usize::MAX as nat
                }),
            decreases self.adj_rib_in@.len() - i,
        {
            proof {
                self.lemma_adj_at(i as int);
                assert(self.adj_rib_in@[i as int].routes.wf());
                assert(adj.take(i + 1).drop_last() =~= adj.take(i as int));
            }
            let c = self.adj_rib_in[i].routes.len();
            if total > usize::MAX - c {
                total = usize::MAX;
            } else {
                total = total + c;
            }
            i = i + 1;
        }
        proof {
            assert(adj.take(i as int) =~= adj);
        }
        (self.adj_rib_in.len(), total, self.loc_rib.len())
    }
}

impl Default for Rib {
    fn default() -> (r: Self)
        ensures
            r.wf(),
            r.adj().len() == 0,
            r.loc() == Map::<PrefixKey, RouteView>::empty(),
    {
        Rib::new()
    }
}

/// The number of stale routes over all peers.
pub open spec fn stale_total(adj: AdjView) -> nat
    decreases adj.len(),
{
    if adj.len() == 0 {
        0
    } else {
        stale_total(adj.drop_last()) + stale_keys_of(adj.last().1).len()
    }
}

/// The number of routes over all peers.
pub open spec fn route_total(adj: AdjView) -> nat
    decreases adj.len(),
{
    if adj.len() == 0 {
        0
    } else {
        route_total(adj.drop_last()) + adj.last().1.len()
    }
}

/// Replacing one peer entry changes the stale count by the difference of the
/// two entries' stale counts.
pub proof fn lemma_stale_total_update(
    a: AdjView,
    i: int,
    e: (SocketAddress, Map<PrefixKey, RouteView>),
)
    requires
        0 <= i < a.len(),
    ensures
        stale_total(a.update(i, e)) + stale_keys_of(a[i].1).len() == stale_total(a) + stale_keys_of(
            e.1,
        ).len(),
    decreases a.len(),
{
    let b = a.update(i, e);
    if i == a.len() - 1 {
        assert(b.drop_last() =~= a.drop_last());
    } else {
        assert(b.drop_last() =~= a.drop_last().update(i, e));
        lemma_stale_total_update(a.drop_last(), i, e);
    }
}

/// Law of graceful restart: marking a peer stale leaves every one of its
/// routes stale and the other peers' stale routes as they were, so the stale
/// count grows by the peer's routes that were not stale yet.
pub proof fn lemma_stale_total_after_mark(adj: AdjView, peer: SocketAddress)
    requires
        peers_unique(adj),
    ensures
        stale_total(marked_stale(adj, peer)) + stale_keys_of(peer_routes(adj, peer)).len()
            == stale_total(adj) + peer_routes(adj, peer).dom().len(),
{
    let i = peer_index(adj, peer);
    let m = peer_routes(adj, peer);
    lemma_sweep_after_mark(adj, peer);
    if i < 0 {
        assert(stale_keys_of(m) =~= m.dom());
    } else {
        let ms = m.map_values(|r: RouteView| stale_view(r));
        lemma_peer_routes_after_write(adj, peer, ms, peer);
        lemma_first_where_meaning(adj, peer_is(peer));
        lemma_stale_total_update(adj, i, (peer, ms));
        assert(stale_keys_of(ms) =~= m.dom());
    }
}

/// Peers that hold the same things for `k` up to the graceful-restart mark
/// give the same decision up to that mark.
pub proof fn lemma_decision_strip(a: AdjView, b: AdjView, k: PrefixKey)
    requires
        a.len() == b.len(),
        forall|i: int| 0 <= i < a.len() ==> #[trigger] a[i].1.contains_key(k) == b[i].1.contains_key(k)
            && (a[i].1.contains_key(k) ==> strip(a[i].1[k]) == strip(b[i].1[k])),
    ensures
        decision(a, k) is None <==> decision(b, k) is None,
        decision(a, k) is Some ==> strip(decision(a, k)->0) == strip(decision(b, k)->0),
{
    lemma_candidates_strip(a, b, k);
    let ca = candidates(a, k);
    let cb = candidates(b, k);
    assert forall|i: int| 0 <= i < ca.len() implies unbeaten(ca)(#[trigger] ca[i]) == unbeaten(cb)(cb[i]) by {
        assert(strip(ca[i]) == strip(cb[i]));
        if unbeaten(ca)(ca[i]) {
            assert forall|j: int| 0 <= j < cb.len() implies !better(#[trigger] cb[j], cb[i]) by {
                assert(strip(ca[j]) == strip(cb[j]));
                assert(!better(ca[j], ca[i]));
            }
        }
        if unbeaten(cb)(cb[i]) {
            assert forall|j: int| 0 <= j < ca.len() implies !better(#[trigger] ca[j], ca[i]) by {
                assert(strip(ca[j]) == strip(cb[j]));
                assert(!better(cb[j], cb[i]));
            }
        }
    }
    lemma_first_where_congruent(ca, unbeaten(ca), cb, unbeaten(cb));
    if ca.len() > 0 {
        lemma_best_exists(ca);
    }
}

/// Candidates of peers that agree up to the graceful-restart mark agree up
/// to that mark.
pub proof fn lemma_candidates_strip(a: AdjView, b: AdjView, k: PrefixKey)
    requires
        a.len() == b.len(),
        forall|i: int| 0 <= i < a.len() ==> #[trigger] a[i].1.contains_key(k) == b[i].1.contains_key(k)
            && (a[i].1.contains_key(k) ==> strip(a[i].1[k]) == strip(b[i].1[k])),
    ensures
        candidates(a, k).len() == candidates(b, k).len(),
        forall|j: int| 0 <= j < candidates(a, k).len() ==> strip(#[trigger] candidates(a, k)[j]) == strip(candidates(b, k)[j]),
    decreases a.len(),
{
    if a.len() > 0 {
        let a2 = a.drop_last();
        let b2 = b.drop_last();
        assert forall|i: int| 0 <= i < a2.len() implies #[trigger] a2[i].1.contains_key(k) == b2[i].1.contains_key(k)
            && (a2[i].1.contains_key(k) ==> strip(a2[i].1[k]) == strip(b2[i].1[k])) by {
            assert(a2[i] == a[i] && b2[i] == b[i]);
        }
        lemma_candidates_strip(a2, b2, k);
        assert(a[a.len() - 1].1.contains_key(k) == b[b.len() - 1].1.contains_key(k));
    }
}

/// A nonempty list of candidates has a best one, and nothing beats it.
pub proof fn lemma_best_exists(c: Seq<RouteView>)
    requires
        c.len() > 0,
    ensures
        0 <= best_index(c) < c.len(),
        forall|j: int| 0 <= j < c.len() ==> !better(#[trigger] c[j], c[best_index(c)]),
    decreases c.len(),
{
    let w = unbeaten_witness(c);
    lemma_first_where_meaning(c, unbeaten(c));
    if best_index(c) == -1 {
        assert(!unbeaten(c)(c[w]));
    }
}

/// The position of a route of `c` that nothing in `c` beats.
proof fn unbeaten_witness(c: Seq<RouteView>) -> (w: int)
    requires
        c.len() > 0,
    ensures
        0 <= w < c.len(),
        unbeaten(c)(c[w]),
    decreases c.len(),
{
    if c.len() == 1 {
        lemma_better_order(c[0], c[0], c[0]);
        0
    } else {
        let d = c.drop_last();
        let w0 = unbeaten_witness(d);
        let last = c[c.len() - 1];
        if better(last, c[w0]) {
            assert forall|j: int| 0 <= j < c.len() implies !better(#[trigger] c[j], last) by {
                lemma_better_order(c[j], last, c[w0]);
                lemma_better_order(last, last, last);
                if j < c.len() - 1 {
                    assert(c[j] == d[j]);
                }
            }
            c.len() - 1
        } else {
            assert forall|j: int| 0 <= j < c.len() implies !better(#[trigger] c[j], c[w0]) by {
                if j < c.len() - 1 {
                    assert(c[j] == d[j]);
                }
            }
            w0
        }
    }
}

/// In a well-formed RIB no peer has two entries.
pub proof fn lemma_wf_peers_unique(rib: &Rib)
    requires
        rib.wf(),
    ensures
        peers_unique(rib.adj()),
{
}

/// Every peer's route for `k` is among the candidates for `k`.
pub proof fn lemma_peer_route_is_candidate(a: AdjView, i: int, k: PrefixKey)
    requires
        0 <= i < a.len(),
        a[i].1.contains_key(k),
    ensures
        exists|j: int| 0 <= j < candidates(a, k).len() && #[trigger] candidates(a, k)[j] == a[i].1[k],
    decreases a.len(),
{
    let d = a.drop_last();
    let c = candidates(a, k);
    if i == a.len() - 1 {
        assert(c[c.len() - 1] == a[i].1[k]);
    } else {
        assert(d[i] == a[i]);
        lemma_peer_route_is_candidate(d, i, k);
        let j = choose|j: int| 0 <= j < candidates(d, k).len() && #[trigger] candidates(d, k)[j] == d[i].1[k];
        assert(c[j] == candidates(d, k)[j]);
    }
}

/// Law of the decision process (RFC 4271 9.1.2): whenever some peer holds a
/// route for a prefix, the Loc-RIB holds one too, and compared with any
/// peer's route for that prefix it has the higher LOCAL_PREF (100 when
/// absent); at equal LOCAL_PREF the shorter AS_PATH (lengths counted up to
/// the largest `usize`); then the lower ORIGIN code (INCOMPLETE when
/// absent); then the lower MED (0 when absent); then the earlier arrival.
/// A route with a higher
/// LOCAL_PREF is thus never passed over for one with a shorter AS_PATH.
pub proof fn lemma_best_route_order(rib: &Rib, i: int, k: PrefixKey)
    requires
        rib.wf(),
        0 <= i < rib.adj().len(),
        rib.adj()[i].1.contains_key(k),
    ensures
        rib.loc().contains_key(k),
        ({
            let b = rib.loc()[k].attrs;
            let c = rib.adj()[i].1[k].attrs;
            let lp_b: int = match b.local_pref { Some(v) => v as int, None => 100 };
            let lp_c: int = match c.local_pref { Some(v) => v as int, None => 100 };
            let len_b: int = if spec_as_path_len(b.as_path) <= usize::MAX { spec_as_path_len(b.as_path) as int } else { usize::MAX as int };
            let len_c: int = if spec_as_path_len(c.as_path) <= usize::MAX { spec_as_path_len(c.as_path) as int } else { usize::MAX as int };
            let or_b: int = match b.origin { Some(o) => spec_origin_code(o) as int, None => 2 };
            let or_c: int = match c.origin { Some(o) => spec_origin_code(o) as int, None => 2 };
            let med_b: int = match b.multi_exit_disc { Some(v) => v as int, None => 0 };
            let med_c: int = match c.multi_exit_disc { Some(v) => v as int, None => 0 };
            &&& lp_c <= lp_b
            &&& lp_c == lp_b ==> len_b <= len_c
            &&& lp_c == lp_b && len_b == len_c ==> or_b <= or_c
            &&& lp_c == lp_b && len_b == len_c && or_b == or_c ==> med_b <= med_c
            &&& lp_c == lp_b && len_b == len_c && or_b == or_c && med_b == med_c
                ==> rib.loc()[k].received_at <= rib.adj()[i].1[k].received_at
        }),
{
    let a = rib.adj();
    lemma_peer_route_is_candidate(a, i, k);
    let cs = candidates(a, k);
    let j = choose|j: int| 0 <= j < cs.len() && #[trigger] cs[j] == a[i].1[k];
    lemma_loc_rib_is_best(rib, k);
    assert(!better(cs[j], rib.loc()[k]));
}

/// Law of the RIB: for every prefix, the Loc-RIB holds a route exactly when
/// some peer does, and then it is the route the decision process picks among
/// all peers' routes for that prefix (up to the graceful-restart mark): no
/// peer's route for the prefix is preferred to it.
pub proof fn lemma_loc_rib_is_best(rib: &Rib, k: PrefixKey)
    requires
        rib.wf(),
    ensures
        rib.loc().contains_key(k) <==> candidates(rib.adj(), k).len() > 0,
        rib.loc().contains_key(k) ==> strip(rib.loc()[k]) == strip(
            candidates(rib.adj(), k)[best_index(candidates(rib.adj(), k))],
        ),
        rib.loc().contains_key(k) ==> forall|j: int|
            0 <= j < candidates(rib.adj(), k).len() ==> !better(
                #[trigger] candidates(rib.adj(), k)[j],
                rib.loc()[k],
            ),
{
    assert(agrees_at(rib.adj(), rib.loc(), k));
    let c = candidates(rib.adj(), k);
    if c.len() > 0 {
        lemma_best_exists(c);
        let b = c[best_index(c)];
        assert forall|j: int| 0 <= j < c.len() implies !better(#[trigger] c[j], rib.loc()[k]) by {
            assert(better(c[j], rib.loc()[k]) == better(c[j], b));
        }
    }
}

/// Law of updates: after `with_peer_routes`, the peer holds exactly the
/// routes it was given, and every other peer keeps its own.
pub proof fn lemma_peer_routes_after_write(
    adj: AdjView,
    peer: SocketAddress,
    m: Map<PrefixKey, RouteView>,
    other: SocketAddress,
)
    requires
        peers_unique(adj),
    ensures
        peer_routes(with_peer_routes(adj, peer, m), peer) == m,
        other != peer ==> peer_routes(with_peer_routes(adj, peer, m), other) == peer_routes(adj, other),
        peers_unique(with_peer_routes(adj, peer, m)),
{
    let i = peer_index(adj, peer);
    let b = with_peer_routes(adj, peer, m);
    lemma_first_where_meaning(adj, peer_is(peer));
    lemma_first_where_meaning(adj, peer_is(other));
    if i < 0 {
        assert forall|j: int| 0 <= j < adj.len() implies !peer_is(peer)(#[trigger] b[j]) by {
            assert(b[j] == adj[j]);
        }
        lemma_first_where(b, peer_is(peer), adj.len() as int);
    } else {
        assert forall|j: int| 0 <= j < i implies !peer_is(peer)(#[trigger] b[j]) by {
            assert(b[j] == adj[j]);
        }
        lemma_first_where(b, peer_is(peer), i);
    }
    assert forall|x: int, y: int| 0 <= x < y < b.len() implies b[x].0 != b[y].0 by {
        if y < adj.len() {
            assert(b[x].0 == adj[x].0 && b[y].0 == adj[y].0);
        } else {
            assert(b[x] == adj[x]);
        }
    }
    if other != peer {
        let o = peer_index(adj, other);
        if o < 0 {
            assert forall|j: int| 0 <= j < b.len() implies !peer_is(other)(#[trigger] b[j]) by {
                if j < adj.len() {
                    assert(b[j].0 == adj[j].0);
                }
            }
            lemma_first_where(b, peer_is(other), b.len() as int);
        } else {
            assert forall|j: int| 0 <= j < o implies !peer_is(other)(#[trigger] b[j]) by {
                assert(b[j].0 == adj[j].0);
            }
            assert(o != i);
            assert(b[o] == adj[o]);
            lemma_first_where(b, peer_is(other), o);
        }
    }
}

/// Law of updates: an advertisement that was admitted and not also
/// withdrawn leaves the peer holding a fresh route for its prefix.
pub proof fn lemma_advertised_route_present(
    old_routes: Map<PrefixKey, RouteView>,
    v: RpkiValidator,
    nlri: Seq<Prefix>,
    suppressed: Seq<bool>,
    attrs: AttrsView,
    peer: SocketAddress,
    peer_as: u32,
    seq: u64,
    withdrawn: Seq<Prefix>,
    j: int,
)
    requires
        0 <= j < nlri.len(),
        suppressed.len() == nlri.len(),
        admitted(v, nlri[j], peer_as, suppressed[j]),
        !withdrawn_keys(withdrawn).contains(key_of(nlri[j])),
    ensures
        routes_after_update(old_routes, v, nlri, suppressed, attrs, peer, peer_as, seq, withdrawn).contains_key(key_of(nlri[j])),
        routes_after_update(old_routes, v, nlri, suppressed, attrs, peer, peer_as, seq, withdrawn)[key_of(nlri[j])]
            == fresh_route(v, nlri[j], attrs, peer, peer_as, seq),
{
    let k = key_of(nlri[j]);
    assert(is_admitted_key(v, nlri, suppressed, peer_as, k));
    assert(prefix_of(k) == nlri[j]);
}

/// Law of updates: a withdrawn prefix is gone from the peer afterwards, and
/// a prefix the update does not mention keeps its route.
pub proof fn lemma_withdrawn_and_untouched(
    old_routes: Map<PrefixKey, RouteView>,
    v: RpkiValidator,
    nlri: Seq<Prefix>,
    suppressed: Seq<bool>,
    attrs: AttrsView,
    peer: SocketAddress,
    peer_as: u32,
    seq: u64,
    withdrawn: Seq<Prefix>,
    k: PrefixKey,
)
    ensures
        withdrawn_keys(withdrawn).contains(k) ==> !routes_after_update(old_routes, v, nlri, suppressed, attrs, peer, peer_as, seq, withdrawn).contains_key(k),
        !withdrawn_keys(withdrawn).contains(k) && !is_admitted_key(v, nlri, suppressed, peer_as, k) ==> agree_on(
            routes_after_update(old_routes, v, nlri, suppressed, attrs, peer, peer_as, seq, withdrawn),
            old_routes,
            k,
        ),
{
}

/// Two maps hold the same thing for `k`.
pub open spec fn agree_on(m1: Map<PrefixKey, RouteView>, m2: Map<PrefixKey, RouteView>, k: PrefixKey) -> bool {
    &&& m1.contains_key(k) == m2.contains_key(k)
    &&& m1.contains_key(k) ==> m1[k] == m2[k]
}

/// The candidates for `k` depend only on what each peer holds for `k`.
pub proof fn lemma_candidates_frame(a: AdjView, b: AdjView, k: PrefixKey)
    requires
        a.len() == b.len(),
        forall|i: int| 0 <= i < a.len() ==> agree_on(#[trigger] a[i].1, b[i].1, k),
    ensures
        candidates(a, k) == candidates(b, k),
    decreases a.len(),
{
    if a.len() > 0 {
        let a2 = a.drop_last();
        let b2 = b.drop_last();
        assert forall|i: int| 0 <= i < a2.len() implies agree_on(#[trigger] a2[i].1, b2[i].1, k) by {
            assert(a2[i] == a[i] && b2[i] == b[i]);
        }
        lemma_candidates_frame(a2, b2, k);
        assert(agree_on(a[a.len() - 1].1, b[b.len() - 1].1, k));
    }
}

/// A peer entry without `k` adds no candidate for `k`.
pub proof fn lemma_candidates_push_absent(
    a: AdjView,
    e: (SocketAddress, Map<PrefixKey, RouteView>),
    k: PrefixKey,
)
    requires
        !e.1.contains_key(k),
    ensures
        candidates(a.push(e), k) == candidates(a, k),
{
    assert(a.push(e).drop_last() =~= a);
}

/// Removing a peer entry without `k` removes no candidate for `k`.
pub proof fn lemma_candidates_remove_absent(a: AdjView, i: int, k: PrefixKey)
    requires
        0 <= i < a.len(),
        !a[i].1.contains_key(k),
    ensures
        candidates(a.remove(i), k) == candidates(a, k),
    decreases a.len(),
{
    if i == a.len() - 1 {
        assert(a.remove(i) =~= a.drop_last());
    } else {
        assert(a.remove(i).drop_last() =~= a.drop_last().remove(i));
        assert(a.remove(i).last() == a.last());
        lemma_candidates_remove_absent(a.drop_last(), i, k);
    }
}

/// Every candidate for `k` was sent by a peer that has an entry.
pub proof fn lemma_candidates_from_peers(a: AdjView, k: PrefixKey)
    requires
        adj_ok(a),
    ensures
        forall|j: int|
            0 <= j < candidates(a, k).len() ==> exists|i: int|
                0 <= i < a.len() && a[i].0 == (#[trigger] candidates(a, k)[j]).peer_addr,
    decreases a.len(),
{
    if a.len() > 0 {
        let d = a.drop_last();
        assert forall|i: int, q: PrefixKey| 0 <= i < d.len() && #[trigger] d[i].1.contains_key(q) implies d[i].1[q].peer_addr == d[i].0 by {
            assert(d[i] == a[i]);
        }
        lemma_candidates_from_peers(d, k);
        let c = candidates(a, k);
        assert forall|j: int| 0 <= j < c.len() implies exists|i: int|
            0 <= i < a.len() && a[i].0 == (#[trigger] c[j]).peer_addr by {
            if j < candidates(d, k).len() {
                let i = choose|i: int| 0 <= i < d.len() && d[i].0 == (#[trigger] candidates(d, k)[j]).peer_addr;
                assert(a[i] == d[i]);
            } else {
                assert(a[a.len() - 1].1.contains_key(k));
            }
        }
    }
}

/// Law of graceful restart: after a peer's routes are marked stale, its
/// stale routes are exactly the routes it held, and sweeping them removes
/// the peer with all its routes.
pub proof fn lemma_sweep_after_mark(adj: AdjView, peer: SocketAddress)
    requires
        peers_unique(adj),
    ensures
        stale_keys_of(peer_routes(marked_stale(adj, peer), peer)) == peer_routes(adj, peer).dom(),
        peer_index(swept(marked_stale(adj, peer), peer, peer_routes(adj, peer).dom()), peer) < 0,
{
    let i = peer_index(adj, peer);
    let m = peer_routes(adj, peer);
    let ms = m.map_values(|r: RouteView| stale_view(r));
    let a1 = marked_stale(adj, peer);
    lemma_first_where_meaning(adj, peer_is(peer));
    if i < 0 {
        assert(stale_keys_of(m) =~= m.dom());
    } else {
        lemma_peer_routes_after_write(adj, peer, ms, peer);
        assert(peer_routes(a1, peer) == ms);
        assert(stale_keys_of(ms) =~= m.dom());
        assert(a1 == adj.update(i, (peer, ms)));
        lemma_first_where_meaning(a1, peer_is(peer));
        lemma_first_where(a1, peer_is(peer), i);
        assert(ms.remove_keys(m.dom()) =~= Map::<PrefixKey, RouteView>::empty());
        let a2 = swept(a1, peer, m.dom());
        assert(a2 == a1.remove(i));
        assert forall|j: int| 0 <= j < a2.len() implies !peer_is(peer)(#[trigger] a2[j]) by {
            let j2 = if j < i { j } else { j + 1 };
            assert(a2[j] == adj[j2]);
        }
        lemma_first_where(a2, peer_is(peer), a2.len() as int);
    }
}

/// Law of disconnection: while a peer has no entry, the Loc-RIB holds no
/// route that it sent.
pub proof fn lemma_no_route_from_absent_peer(rib: &Rib, peer: SocketAddress, k: PrefixKey)
    requires
        rib.wf(),
        peer_index(rib.adj(), peer) < 0,
    ensures
        rib.loc().contains_key(k) ==> rib.loc()[k].peer_addr != peer,
{
    let a = rib.adj();
    assert(agrees_at(a, rib.loc(), k));
    let c = candidates(a, k);
    if rib.loc().contains_key(k) {
        lemma_best_exists(c);
        lemma_candidates_from_peers(a, k);
        lemma_first_where_meaning(a, peer_is(peer));
        let b = best_index(c);
        assert(strip(rib.loc()[k]).peer_addr == strip(c[b]).peer_addr);
        let i = choose|i: int| 0 <= i < a.len() && a[i].0 == (#[trigger] c[b]).peer_addr;
        assert(!peer_is(peer)(a[i]));
    }
}

/// The keys of some prefixes, in order.
pub fn keys_of(ps: &[Prefix]) -> (r: Vec<PrefixKey>)
    ensures
        r@ == ps@.map_values(|p: Prefix| key_of(p)),
{
    let mut out: Vec<PrefixKey> = Vec::new();
    let mut i: usize = 0;
    while i < ps.len()
        invariant
            i <= ps@.len(),
            out@ == ps@.take(i as int).map_values(|p: Prefix| key_of(p)),
        decreases ps@.len() - i,
    {
        out.push(PrefixKey::from_prefix(&ps[i]));
        i = i + 1;
        assert(out@ =~= ps@.take(i as int).map_values(|p: Prefix| key_of(p)));
    }
    assert(ps@.take(i as int) =~= ps@);
    out
}

/// One more advertisement: its key is admitted when it is.
pub proof fn lemma_admitted_step(
    v: RpkiValidator,
    nlri: Seq<Prefix>,
    suppressed: Seq<bool>,
    peer_as: u32,
    j: int,
    k: PrefixKey,
)
    requires
        0 <= j < nlri.len(),
        suppressed.len() == nlri.len(),
    ensures
        is_admitted_key(v, nlri.take(j + 1), suppressed.take(j + 1), peer_as, k) == (
        is_admitted_key(v, nlri.take(j), suppressed.take(j), peer_as, k) || (key_of(nlri[j]) == k
            && admitted(v, nlri[j], peer_as, suppressed[j]))),
{
    let n1 = nlri.take(j);
    let s1 = suppressed.take(j);
    let n2 = nlri.take(j + 1);
    let s2 = suppressed.take(j + 1);
    if is_admitted_key(v, n1, s1, peer_as, k) {
        let w = choose|w: int| 0 <= w < n1.len() && key_of(#[trigger] n1[w]) == k && admitted(v, n1[w], peer_as, s1[w]);
        assert(n2[w] == n1[w] && s2[w] == s1[w]);
    }
    if key_of(nlri[j]) == k && admitted(v, nlri[j], peer_as, suppressed[j]) {
        assert(n2[j] == nlri[j] && s2[j] == suppressed[j]);
    }
    if is_admitted_key(v, n2, s2, peer_as, k) {
        let w = choose|w: int| 0 <= w < n2.len() && key_of(#[trigger] n2[w]) == k && admitted(v, n2[w], peer_as, s2[w]);
        if w < j {
            assert(n1[w] == n2[w] && s1[w] == s2[w]);
        }
    }
}

/// Whether `s` with `x` appended holds `k`.
pub proof fn lemma_push_contains<T>(s: Seq<T>, x: T, k: T)
    ensures
        s.push(x).contains(k) == (s.contains(k) || k == x),
{
    let t = s.push(x);
    if s.contains(k) {
        let w = choose|w: int| 0 <= w < s.len() && s[w] == k;
        assert(t[w] == k);
    }
    if k == x {
        assert(t[s.len() as int] == k);
    }
    if t.contains(k) {
        let w = choose|w: int| 0 <= w < t.len() && t[w] == k;
        if w < s.len() {
            assert(s[w] == k);
        }
    }
}

/// Whether the first `j + 1` items hold `k`: the first `j` do, or item `j` is `k`.
pub proof fn lemma_take_push_contains<T>(s: Seq<T>, j: int, k: T)
    requires
        0 <= j < s.len(),
    ensures
        s.take(j + 1).contains(k) == (s.take(j).contains(k) || k == s[j]),
{
    let t = s.take(j);
    let t2 = s.take(j + 1);
    if t.contains(k) {
        let w = choose|w: int| 0 <= w < t.len() && t[w] == k;
        assert(t2[w] == k);
    }
    if k == s[j] {
        assert(t2[j] == k);
    }
    if t2.contains(k) {
        let w = choose|w: int| 0 <= w < t2.len() && t2[w] == k;
        if w < j {
            assert(t[w] == k);
        }
    }
}

} // verus!
