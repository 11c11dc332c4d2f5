//! Route filtering: prefix lists and community lists.

use crate::attr::{Community, PathAttributes};
use crate::config::{CommunityList, FilterAction, PolicyConfig, PrefixList, PrefixListEntry};
use crate::message::update::Prefix;
use crate::net::{high_bits, parse_ipv4, same_network, spec_parse_ipv4};
use crate::search::{first_where, lemma_first_where};
use crate::text::{
    chars_of,
    parse_unsigned,
    spec_parse_unsigned,
    spec_split_once,
    split_once,
    str_equal,
};
use vstd::prelude::*;

verus! {

/// `a.b.c.d/len` text: the network as a 32-bit number and the length as read
/// (any value up to 255).
pub open spec fn spec_parse_prefix_text(cs: Seq<char>) -> Option<(u32, u8)> {
    match spec_split_once(cs, '/') {
        None => None,
        Some((a, l)) => match (spec_parse_ipv4(a), spec_parse_unsigned(l, 255)) {
            (Some(addr), Some(len)) => Some((addr, len as u8)),
            _ => None,
        },
    }
}

/// Whether `test_addr/test_len` lies within `net_addr/net_len`.
pub open spec fn spec_is_subnet(test_addr: u32, test_len: u8, net_addr: u32, net_len: u8) -> bool {
    test_len >= net_len && same_network(test_addr, net_addr, net_len)
}

/// Whether checking `p` against the entry would shift by more than the
/// address width: the entry's length is over 32 and `p` is at least as long.
pub open spec fn spec_entry_overflows(e: PrefixListEntry, p: Prefix) -> bool {
    match spec_parse_prefix_text(e.prefix@) {
        Some((_, net_len)) => net_len > 32 && p.prefix_len >= net_len,
        None => false,
    }
}

/// Whether a route prefix matches a prefix-list entry: the entry's text
/// parses, the route lies within the entry's network, and its length is
/// within `ge`/`le`; with neither bound, the lengths must be equal.
pub open spec fn spec_entry_matches(e: PrefixListEntry, p: Prefix) -> bool {
    match spec_parse_prefix_text(e.prefix@) {
        None => false,
        Some((net, net_len)) => {
            &&& spec_is_subnet(p.address, p.prefix_len, net, net_len)
            &&& match e.ge {
                Some(ge) => p.prefix_len >= ge,
                None => true,
            }
            &&& match e.le {
                Some(le) => p.prefix_len <= le,
                None => true,
            }
            &&& (e.ge is None && e.le is None ==> p.prefix_len == net_len)
        },
    }
}

/// Matching `p`, as a predicate on entries.
pub open spec fn entry_hit(p: Prefix) -> spec_fn(PrefixListEntry) -> bool {
    |e: PrefixListEntry| spec_entry_matches(e, p)
}

/// Matching `p` or overflowing on it, as a predicate on entries.
pub open spec fn entry_stop(p: Prefix) -> spec_fn(PrefixListEntry) -> bool {
    |e: PrefixListEntry| spec_entry_overflows(e, p) || spec_entry_matches(e, p)
}

/// Being called `name`, as a predicate on prefix lists.
pub open spec fn list_called(name: Seq<char>) -> spec_fn(PrefixList) -> bool {
    |l: PrefixList| l.name@ == name
}

/// Being called `name`, as a predicate on community lists.
pub open spec fn community_list_called(name: Seq<char>) -> spec_fn(CommunityList) -> bool {
    |c: CommunityList| c.name@ == name
}

/// The verdict of a prefix list: the action of the first entry that matches,
/// and deny when none does.
pub open spec fn spec_list_permits(entries: Seq<PrefixListEntry>, p: Prefix) -> bool {
    let f = first_where(entries, entry_hit(p));
    f >= 0 && entries[f].action == FilterAction::Permit
}

/// Whether evaluating the list on `p` reaches a matching entry, or the end,
/// before an entry whose check would overflow.
pub open spec fn spec_list_evaluable(entries: Seq<PrefixListEntry>, p: Prefix) -> bool {
    let f = first_where(entries, entry_stop(p));
    f < 0 || !spec_entry_overflows(entries[f], p)
}

/// The index of the first prefix list called `name`, or -1.
pub open spec fn spec_list_named(lists: Seq<PrefixList>, name: Seq<char>) -> int {
    first_where(lists, list_called(name))
}

/// The verdict of the policy called `name` on `p`: that of the first prefix
/// list with that name, and permit when there is none.
pub open spec fn spec_apply(cfg: PolicyConfig, name: Seq<char>, p: Prefix) -> bool {
    let i = spec_list_named(cfg.prefix_lists@, name);
    i < 0 || spec_list_permits(cfg.prefix_lists@[i].entries@, p)
}

/// Whether `spec_apply` can be evaluated on `p` without overflow.
pub open spec fn spec_apply_evaluable(cfg: PolicyConfig, name: Seq<char>, p: Prefix) -> bool {
    let i = spec_list_named(cfg.prefix_lists@, name);
    i < 0 || spec_list_evaluable(cfg.prefix_lists@[i].entries@, p)
}

/// Community text: `no-export`, `no-advertise`, `no-export-subconfed`, or
/// `asn:value` with two decimal numbers of at most 65535.
pub open spec fn spec_parse_community_str(cs: Seq<char>) -> Option<u32> {
    if cs == "no-export"@ {
        Some(Community::NO_EXPORT)
    } else if cs == "no-advertise"@ {
        Some(Community::NO_ADVERTISE)
    } else if cs == "no-export-subconfed"@ {
        Some(Community::NO_EXPORT_SUBCONFED)
    } else {
        match spec_split_once(cs, ':') {
            None => None,
            Some((a, v)) => match (spec_parse_unsigned(a, 65535), spec_parse_unsigned(v, 65535)) {
                (Some(asn), Some(val)) => Some((asn * 65536 + val) as u32),
                _ => None,
            },
        }
    }
}

/// Whether `comms` holds the community that the text `cs` names.
pub open spec fn spec_has_community(comms: Seq<Community>, cs: Seq<char>) -> bool {
    match spec_parse_community_str(cs) {
        Some(c) => comms.contains(Community(c)),
        None => false,
    }
}

/// Whether the first community list called `name` names a community that
/// `comms` holds.
pub open spec fn spec_matches_community_list(
    lists: Seq<CommunityList>,
    name: Seq<char>,
    comms: Seq<Community>,
) -> bool {
    let i = first_where(lists, community_list_called(name));
    i >= 0 && exists|j: int|
        0 <= j < lists[i].communities@.len() && spec_has_community(
            comms,
            #[trigger] lists[i].communities@[j]@,
        )
}

/// Reads `a.b.c.d/len` text.
pub fn parse_prefix(s: &str) -> (r: Option<(u32, u8)>)
    ensures
        r == spec_parse_prefix_text(s@),
{
    let cs = chars_of(s);
    let (a, l) = match split_once(&cs, '/') {
        Some(p) => p,
        None => return None,
    };
    let addr = parse_ipv4(&a);
    let len = parse_unsigned(&l, 255);
    match (addr, len) {
        (Some(addr), Some(len)) => Some((addr, len as u8)),
        _ => None,
    }
}

/// Whether `test_addr/test_len` lies within `net_addr/net_len`.
pub fn is_subnet(test_addr: u32, test_len: u8, net_addr: u32, net_len: u8) -> (r: bool)
    requires
        net_len <= 32 || test_len < net_len,
    ensures
        r == spec_is_subnet(test_addr, test_len, net_addr, net_len),
{
    if test_len < net_len {
        return false;
    }
    high_bits(test_addr, net_len) == high_bits(net_addr, net_len)
}

/// Law of prefix lists: the first entry of the first list called `name`
/// decides for every prefix it covers, namely every prefix inside the
/// entry's network (the top `net_len` bits agree) whose length is at least
/// the network's, at least `ge` and at most `le` where those bounds are
/// given, and equal to the network's when neither is given. Such a prefix
/// gets the entry's action. When the list has only that entry, every other
/// prefix is denied.
pub proof fn lemma_first_entry_decides(
    cfg: PolicyConfig,
    name: Seq<char>,
    p: Prefix,
    net: u32,
    net_len: u8,
)
    requires
        spec_list_named(cfg.prefix_lists@, name) >= 0,
        cfg.prefix_lists@[spec_list_named(cfg.prefix_lists@, name)].entries@.len() > 0,
        spec_parse_prefix_text(
            cfg.prefix_lists@[spec_list_named(cfg.prefix_lists@, name)].entries@[0].prefix@,
        ) == Some((net, net_len)),
        net_len <= 32,
    ensures
        ({
            let es = cfg.prefix_lists@[spec_list_named(cfg.prefix_lists@, name)].entries@;
            let e = es[0];
            let covered = {
                &&& net_len <= p.prefix_len
                &&& (net_len == 0 || p.address >> ((32 - net_len) as u32) == net >> ((32 - net_len) as u32))
                &&& (e.ge matches Some(g) ==> g <= p.prefix_len)
                &&& (e.le matches Some(l) ==> p.prefix_len <= l)
                &&& (e.ge is None && e.le is None ==> p.prefix_len == net_len)
            };
            &&& covered ==> spec_apply(cfg, name, p) == (e.action == FilterAction::Permit)
            &&& !covered && es.len() == 1 ==> !spec_apply(cfg, name, p)
        }),
{
    let es = cfg.prefix_lists@[spec_list_named(cfg.prefix_lists@, name)].entries@;
    crate::net::lemma_same_network_bits(p.address, net, net_len);
    if spec_entry_matches(es[0], p) {
        lemma_first_where(es, entry_hit(p), 0);
    } else if es.len() == 1 {
        lemma_first_where(es, entry_hit(p), 1);
    }
}

/// Law of community text: reading back the text of any community gives the
/// community.
pub proof fn lemma_community_text_roundtrip(c: Community)
    ensures
        spec_parse_community_str(crate::attr::spec_community_text(c)) == Some(c.0),
{
    reveal_strlit("no-export");
    reveal_strlit("no-advertise");
    reveal_strlit("no-export-subconfed");
    let t = crate::attr::spec_community_text(c);
    if c.0 != Community::NO_EXPORT && c.0 != Community::NO_ADVERTISE && c.0
        != Community::NO_EXPORT_SUBCONFED {
        let a = c.0 as nat / 65536;
        let v = c.0 as nat % 65536;
        let da = crate::text::spec_decimal(a);
        let dv = crate::text::spec_decimal(v);
        crate::text::lemma_decimal_digits(a);
        crate::text::lemma_decimal_digits(v);
        assert(t == da + seq![':'] + dv);
        assert(crate::text::is_digit(da[0]));
        assert(t[0] == da[0]);
        assert(t != "no-export"@ && t != "no-advertise"@ && t != "no-export-subconfed"@) by {
            assert("no-export"@[0] == 'n');
            assert("no-advertise"@[0] == 'n');
            assert("no-export-subconfed"@[0] == 'n');
        }
        assert forall|j: int| 0 <= j < da.len() implies t[j] != ':' by {
            assert(t[j] == da[j]);
            assert(crate::text::is_digit(da[j]));
        }
        crate::text::lemma_first_index(t, ':', da.len() as int);
        assert(t.take(da.len() as int) =~= da);
        assert(t.skip(da.len() as int + 1) =~= dv);
        assert(da[0] != '+');
        assert(dv[0] != '+');
        assert(a <= 65535);
        assert(a * 65536 + v == c.0);
    }
}

/// Reads community text (`no-export`, `no-advertise`, `no-export-subconfed`
/// or `asn:value`).
pub fn parse_community_str(s: &str) -> (r: Option<Community>)
    ensures
        match spec_parse_community_str(s@) {
            Some(c) => r == Some(Community(c)),
            None => r is None,
        },
{
    if str_equal(s, "no-export") {
        return Some(Community(Community::NO_EXPORT));
    }
    if str_equal(s, "no-advertise") {
        return Some(Community(Community::NO_ADVERTISE));
    }
    if str_equal(s, "no-export-subconfed") {
        return Some(Community(Community::NO_EXPORT_SUBCONFED));
    }
    let cs = chars_of(s);
    let (a, v) = match split_once(&cs, ':') {
        Some(p) => p,
        None => return None,
    };
    let asn = parse_unsigned(&a, 65535);
    let val = parse_unsigned(&v, 65535);
    match (asn, val) {
        (Some(asn), Some(val)) => Some(Community((asn * 65536 + val) as u32)),
        _ => None,
    }
}

/// Route filtering engine: evaluates prefix lists and community lists against routes.
pub struct PolicyEngine {
    policy: PolicyConfig,
}

impl PolicyEngine {
    /// The configuration the engine evaluates.
    pub closed spec fn rules(&self) -> PolicyConfig {
        self.policy
    }

    pub fn new(policy: PolicyConfig) -> (r: Self)
        ensures
            r.rules() == policy,
    {
        PolicyEngine { policy }
    }

    /// Whether `apply` can evaluate the policy called `policy_name` on
    /// `prefix`: no entry's length over 32 is reached with a prefix at least
    /// as long.
    pub fn can_apply(&self, policy_name: &str, prefix: &Prefix) -> (r: bool)
        ensures
            r == spec_apply_evaluable(self.rules(), policy_name@, *prefix),
    {
        match self.find_prefix_list(policy_name) {
            None => true,
            Some(i) => {
                let entries = &self.policy.prefix_lists[i].entries;
                let ghost pred = entry_stop(*prefix);
                let mut k: usize = 0;
                while k < entries.len()
                    invariant
                        k <= entries@.len(),
                        pred == entry_stop(*prefix),
                        entries@ == self.policy.prefix_lists@[i as int].entries@,
                        spec_list_named(self.policy.prefix_lists@, policy_name@) == i,
                        forall|j: int| 0 <= j < k ==> !pred(#[trigger] entries@[j]),
                    decreases entries@.len() - k,
                {
                    let (over, hit) = Self::entry_checks(&entries[k], prefix);
                    if over || hit {
                        proof {
                            lemma_first_where(entries@, pred, k as int);
                        }
                        return !over;
                    }
                    k = k + 1;
                }
                proof {
                    lemma_first_where(entries@, pred, entries@.len() as int);
                }
                true
            },
        }
    }

    /// Whether the entry's check would overflow on `prefix`, and whether it
    /// matches when it would not.
    fn entry_checks(entry: &PrefixListEntry, prefix: &Prefix) -> (r: (bool, bool))
        ensures
            r.0 == spec_entry_overflows(*entry, *prefix),
            !r.0 ==> r.1 == spec_entry_matches(*entry, *prefix),
    {
        match parse_prefix(entry.prefix.as_str()) {
            Some((_, net_len)) => {
                if net_len > 32 && prefix.prefix_len >= net_len {
                    (true, false)
                } else {
                    (false, Self::matches_entry(entry, prefix))
                }
            },
            None => (false, false),
        }
    }

    /// The index of the first prefix list called `name`.
    fn find_prefix_list(&self, name: &str) -> (r: Option<usize>)
        ensures
            match r {
                Some(i) => i < self.policy.prefix_lists@.len() && spec_list_named(
                    self.policy.prefix_lists@,
                    name@,
                ) == i,
                None => spec_list_named(self.policy.prefix_lists@, name@) < 0,
            },
    {
        let lists = &self.policy.prefix_lists;
        let ghost pred = list_called(name@);
        let mut i: usize = 0;
        while i < lists.len()
            invariant
                i <= lists@.len(),
                lists@ == self.policy.prefix_lists@,
                pred == list_called(name@),
                forall|j: int| 0 <= j < i ==> !pred(#[trigger] lists@[j]),
            decreases lists@.len() - i,
        {
            if str_equal(lists[i].name.as_str(), name) {
                proof {
                    lemma_first_where(lists@, pred, i as int);
                }
                return Some(i);
            }
            i = i + 1;
        }
        proof {
            lemma_first_where(lists@, pred, lists@.len() as int);
        }
        None
    }

    /// Check whether a route (prefix + attributes) passes an import/export
    /// policy: the first entry of the named prefix list that matches decides,
    /// a list with no matching entry denies, and a name with no list permits.
    pub fn apply(&self, policy_name: &str, prefix: &Prefix, attrs: &PathAttributes) -> (r: bool)
        requires
            spec_apply_evaluable(self.rules(), policy_name@, *prefix),
        ensures
            r == spec_apply(self.rules(), policy_name@, *prefix),
    {
        match self.find_prefix_list(policy_name) {
            Some(i) => Self::evaluate_prefix_list(&self.policy.prefix_lists[i], prefix, attrs),
            None => true,
        }
    }

    fn evaluate_prefix_list(list: &PrefixList, prefix: &Prefix, attrs: &PathAttributes) -> (r: bool)
        requires
            spec_list_evaluable(list.entries@, *prefix),
        ensures
            r == spec_list_permits(list.entries@, *prefix),
    {
        let entries = &list.entries;
        let ghost both = entry_stop(*prefix);
        let ghost hit = entry_hit(*prefix);
        let mut k: usize = 0;
        while k < entries.len()
            invariant
                k <= entries@.len(),
                entries@ == list.entries@,
                spec_list_evaluable(entries@, *prefix),
                both == entry_stop(*prefix),
                hit == entry_hit(*prefix),
                forall|j: int| 0 <= j < k ==> !both(#[trigger] entries@[j]),
            decreases entries@.len() - k,
        {
            assert(!spec_entry_overflows(entries@[k as int], *prefix)) by {
                if spec_entry_overflows(entries@[k as int], *prefix) {
                    lemma_first_where(entries@, both, k as int);
                }
            }
            if Self::matches_entry(&entries[k], prefix) {
                proof {
                    lemma_first_where(entries@, hit, k as int);
                }
                return entries[k].action == FilterAction::Permit;
            }
            k = k + 1;
        }
        proof {
            lemma_first_where(entries@, hit, entries@.len() as int);
        }
        false
    }

    fn matches_entry(entry: &PrefixListEntry, prefix: &Prefix) -> (r: bool)
        requires
            !spec_entry_overflows(*entry, *prefix),
        ensures
            r == spec_entry_matches(*entry, *prefix),
    {
        let (net_addr, net_len) = match parse_prefix(entry.prefix.as_str()) {
            Some(v) => v,
            None => return false,
        };
        if !is_subnet(prefix.address, prefix.prefix_len, net_addr, net_len) {
            return false;
        }
        let pl = prefix.prefix_len;
        let ge_ok = match entry.ge {
            Some(ge) => pl >= ge,
            None => true,
        };
        let le_ok = match entry.le {
            Some(le) => pl <= le,
            None => true,
        };
        let exact_ok = if entry.ge.is_none() && entry.le.is_none() {
            pl == net_len
        } else {
            true
        };
        ge_ok && le_ok && exact_ok
    }

    /// Test whether attributes contain a specific community string.
    pub fn has_community(&self, attrs: &PathAttributes, community_str: &str) -> (r: bool)
        ensures
            r == spec_has_community(attrs.communities@, community_str@),
    {
        Self::holds_community(&attrs.communities, community_str)
    }

    fn holds_community(comms: &Vec<Community>, community_str: &str) -> (r: bool)
        ensures
            r == spec_has_community(comms@, community_str@),
    {
        match parse_community_str(community_str) {
            Some(c) => {
                let mut k: usize = 0;
                while k < comms.len()
                    invariant
                        k <= comms@.len(),
                        spec_parse_community_str(community_str@) == Some(c.0),
                        forall|j: int| 0 <= j < k ==> comms@[j] != c,
                    decreases comms@.len() - k,
                {
                    if comms[k].0 == c.0 {
                        assert(comms@[k as int] == c);
                        assert(comms@.contains(c));
                        return true;
                    }
                    k = k + 1;
                }
                false
            },
            None => false,
        }
    }

    /// Test whether attributes match a named community list: the first list
    /// with that name names a community that the attributes hold.
    pub fn matches_community_list(&self, list_name: &str, attrs: &PathAttributes) -> (r: bool)
        ensures
            r == spec_matches_community_list(
                self.rules().community_lists@,
                list_name@,
                attrs.communities@,
            ),
    {
        let lists = &self.policy.community_lists;
        let ghost pred = community_list_called(list_name@);
        let mut i: usize = 0;
        while i < lists.len()
            invariant
                i <= lists@.len(),
                lists@ == self.policy.community_lists@,
                pred == community_list_called(list_name@),
                forall|j: int| 0 <= j < i ==> !pred(#[trigger] lists@[j]),
            decreases lists@.len() - i,
        {
            if str_equal(lists[i].name.as_str(), list_name) {
                proof {
                    lemma_first_where(lists@, pred, i as int);
                }
                let names = &lists[i].communities;
                let mut k: usize = 0;
                while k < names.len()
                    invariant
                        k <= names@.len(),
                        names@ == lists@[i as int].communities@,
                        lists@ == self.policy.community_lists@,
                        first_where(lists@, pred) == i,
                        pred == community_list_called(list_name@),
                        forall|j: int|
                            0 <= j < k ==> !spec_has_community(
                                attrs.communities@,
                                #[trigger] names@[j]@,
                            ),
                    decreases names@.len() - k,
                {
                    if Self::holds_community(&attrs.communities, names[k].as_str()) {
                        assert(spec_has_community(attrs.communities@, names@[k as int]@));
                        return true;
                    }
                    k = k + 1;
                }
                return false;
            }
            i = i + 1;
        }
        proof {
            lemma_first_where(lists@, pred, lists@.len() as int);
        }
        false
    }
}

} // verus!
