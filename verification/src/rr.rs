//! Route reflection (RFC 4456).
//!
//! A route reflector reflects routes between its clients and non-client peers,
//! relieving the need for a full iBGP mesh:
//! 1. routes from a client go to all clients and all non-clients;
//! 2. routes from a non-client go to clients only;
//! 3. routes from eBGP go to all clients and all non-clients;
//! and a route never goes back to the peer it came from.

use crate::attr::{AttrsView, PathAttributes};
use crate::net::SocketAddress;
use vstd::prelude::*;

verus! {

/// Route reflector role of a peer.
#[derive(Debug, Clone, Copy, PartialEq, Eq, Structural)]
pub enum RrRole {
    /// Not a route reflector peer (eBGP).
    External,
    /// This peer is an RR client.
    Client,
    /// This peer is a non-client iBGP peer.
    NonClient,
}

/// Route reflector configuration.
#[derive(Debug, Clone, Copy, PartialEq, Eq, Structural)]
pub struct RrConfig {
    /// This router's cluster ID.
    pub cluster_id: u32,
    /// Whether this router acts as a route reflector.
    pub enabled: bool,
}

impl RrConfig {
    pub fn new(cluster_id: u32) -> (r: Self)
        ensures
            r == (RrConfig { cluster_id, enabled: true }),
    {
        RrConfig { cluster_id, enabled: true }
    }
}

/// Whether a route from `source` (with role `source_role`) goes to `target`
/// (with role `target_role`).
pub open spec fn spec_should_reflect(
    source_role: RrRole,
    target_role: RrRole,
    source: SocketAddress,
    target: SocketAddress,
) -> bool {
    if source == target {
        false
    } else {
        match (source_role, target_role) {
            (RrRole::External, _) => true,
            (RrRole::Client, RrRole::Client) => true,
            (RrRole::Client, RrRole::NonClient) => true,
            (RrRole::NonClient, RrRole::Client) => true,
            _ => false,
        }
    }
}

/// The attributes of a reflected route: ORIGINATOR_ID set to `originator_id`
/// unless already present, `cluster_id` put in front of the CLUSTER_LIST,
/// everything else unchanged.
pub open spec fn spec_reflected(a: AttrsView, cluster_id: u32, originator_id: u32) -> AttrsView {
    AttrsView {
        originator_id: if a.originator_id is Some {
            a.originator_id
        } else {
            Some(originator_id)
        },
        cluster_list: seq![cluster_id] + a.cluster_list,
        ..a
    }
}

/// Route reflector logic as defined in RFC 4456.
#[derive(Debug, Clone, Copy)]
pub struct RouteReflector {
    pub config: RrConfig,
    pub router_id: u32,
}

impl RouteReflector {
    pub fn new(config: RrConfig, router_id: u32) -> (r: Self)
        ensures
            r.config == config,
            r.router_id == router_id,
    {
        RouteReflector { config, router_id }
    }

    /// Whether to reflect a route from `source_addr` to `target_addr`.
    pub fn should_reflect(
        &self,
        source_role: RrRole,
        target_role: RrRole,
        source_addr: SocketAddress,
        target_addr: SocketAddress,
    ) -> (r: bool)
        ensures
            r == spec_should_reflect(source_role, target_role, source_addr, target_addr),
    {
        if source_addr.same(&target_addr) {
            return false;
        }
        match (source_role, target_role) {
            (RrRole::External, _) => true,
            (RrRole::Client, RrRole::Client) => true,
            (RrRole::Client, RrRole::NonClient) => true,
            (RrRole::NonClient, RrRole::Client) => true,
            (RrRole::NonClient, RrRole::NonClient) => false,
            _ => false,
        }
    }

    /// Prepare path attributes for route reflection (RFC 4456 §8).
    pub fn prepare_reflected_attrs(&self, attrs: &PathAttributes, originator_id: u32) -> (r:
        PathAttributes)
        ensures
            r@ == spec_reflected(attrs@, self.config.cluster_id, originator_id),
    {
        let mut reflected = attrs.duplicate();
        if reflected.originator_id.is_none() {
            reflected.originator_id = Some(originator_id);
        }
        reflected.cluster_list.insert(0, self.config.cluster_id);
        assert(reflected@ =~= spec_reflected(attrs@, self.config.cluster_id, originator_id));
        reflected
    }

    /// Loop detection: whether our cluster ID is in the CLUSTER_LIST.
    pub fn has_cluster_loop(&self, attrs: &PathAttributes) -> (r: bool)
        ensures
            r == attrs@.cluster_list.contains(self.config.cluster_id),
    {
        let mut i: usize = 0;
        while i < attrs.cluster_list.len()
            invariant
                i <= attrs.cluster_list@.len(),
                forall|j: int| 0 <= j < i ==> attrs.cluster_list@[j] != self.config.cluster_id,
            decreases attrs.cluster_list@.len() - i,
        {
            if attrs.cluster_list[i] == self.config.cluster_id {
                assert(attrs.cluster_list@[i as int] == self.config.cluster_id);
                return true;
            }
            i = i + 1;
        }
        false
    }

    /// ORIGINATOR_ID loop: whether ORIGINATOR_ID is our router ID.
    pub fn has_originator_loop(&self, attrs: &PathAttributes) -> (r: bool)
        ensures
            r == (attrs@.originator_id == Some(self.router_id)),
    {
        match attrs.originator_id {
            Some(id) => id == self.router_id,
            None => false,
        }
    }

    /// Full loop check (either cluster or originator).
    pub fn has_loop(&self, attrs: &PathAttributes) -> (r: bool)
        ensures
            r == (attrs@.cluster_list.contains(self.config.cluster_id) || attrs@.originator_id
                == Some(self.router_id)),
    {
        self.has_cluster_loop(attrs) || self.has_originator_loop(attrs)
    }
}

/// A route this reflector has reflected carries its cluster ID, so when it
/// comes back the cluster-loop check rejects it; and it always carries an
/// ORIGINATOR_ID.
pub proof fn lemma_reflected_route_is_loop(a: AttrsView, cluster_id: u32, originator_id: u32)
    ensures
        spec_reflected(a, cluster_id, originator_id).cluster_list.contains(cluster_id),
        spec_reflected(a, cluster_id, originator_id).originator_id is Some,
        spec_reflected(a, cluster_id, originator_id).cluster_list.len() == a.cluster_list.len() + 1,
{
    assert(spec_reflected(a, cluster_id, originator_id).cluster_list[0] == cluster_id);
}

/// No peer is reflected back its own route, whatever the roles.
pub proof fn lemma_never_reflect_to_source(
    source_role: RrRole,
    target_role: RrRole,
    addr: SocketAddress,
)
    ensures
        !spec_should_reflect(source_role, target_role, addr, addr),
{
}

/// Law of route reflection (RFC 4456): between two different peers, a route
/// from an eBGP peer goes to every peer whatever its role; a route from a
/// client goes to every client and non-client; a route from a non-client
/// goes to clients and to no one else.
pub proof fn lemma_reflection_targets(
    source_role: RrRole,
    target_role: RrRole,
    source: SocketAddress,
    target: SocketAddress,
)
    requires
        source != target,
    ensures
        source_role == RrRole::External ==> spec_should_reflect(source_role, target_role, source, target),
        source_role == RrRole::Client && (target_role == RrRole::Client || target_role
            == RrRole::NonClient) ==> spec_should_reflect(source_role, target_role, source, target),
        source_role == RrRole::NonClient ==> (spec_should_reflect(source_role, target_role, source, target)
            <==> target_role == RrRole::Client),
{
}

} // verus!
