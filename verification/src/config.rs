//! Router, neighbor and policy configuration, and its validation.

use crate::mp::IpAddress;
use crate::net::SocketAddress;
use vstd::prelude::*;

verus! {

/// Top-level configuration.
#[derive(Debug, Clone)]
pub struct Config {
    pub router: RouterConfig,
    pub neighbors: Vec<NeighborConfig>,
    pub policy: PolicyConfig,
}

/// Global router settings.
#[derive(Debug, Clone)]
pub struct RouterConfig {
    /// Local AS number.
    pub local_as: u32,
    /// BGP router ID (an IPv4 address as a 32-bit number).
    pub router_id: u32,
    /// BGP listen address.
    pub listen: SocketAddress,
    /// Hold time in seconds (0 or at least 3; 90 when not given).
    pub hold_time: u16,
    /// Keepalive interval in seconds (default: hold_time / 3).
    pub keepalive_interval: Option<u16>,
}

/// The listen address used when none is configured: 0.0.0.0, port 179.
pub fn default_listen() -> (r: SocketAddress)
    ensures
        r.ip == IpAddress::V4(0),
        r.port == 179,
{
    SocketAddress::new(IpAddress::V4(0), 179)
}

/// The hold time used when none is configured.
pub fn default_hold_time() -> (r: u16)
    ensures
        r == 90,
{
    90
}

/// Per-neighbor (peer) configuration.
#[derive(Debug, Clone)]
pub struct NeighborConfig {
    /// Peer IP address.
    pub addr: IpAddress,
    /// Peer's AS number.
    pub remote_as: u32,
    /// Override hold time for this peer.
    pub hold_time: Option<u16>,
    /// Description for this neighbor.
    pub description: Option<String>,
    /// Whether this is a route reflector client.
    pub route_reflector_client: bool,
    /// Import policy name (applied to routes received from this peer).
    pub import_policy: Option<String>,
    /// Export policy name (applied to routes sent to this peer).
    pub export_policy: Option<String>,
}

impl NeighborConfig {
    /// The neighbor's transport address on `port`.
    pub fn socket_addr(&self, port: u16) -> (r: SocketAddress)
        ensures
            r.ip == self.addr,
            r.port == port,
    {
        SocketAddress::new(self.addr, port)
    }
}

/// Route policy configuration.
#[derive(Debug, Clone)]
pub struct PolicyConfig {
    /// Named prefix lists.
    pub prefix_lists: Vec<PrefixList>,
    /// Named community lists.
    pub community_lists: Vec<CommunityList>,
}

impl Default for PolicyConfig {
    fn default() -> (r: Self)
        ensures
            r.prefix_lists@.len() == 0,
            r.community_lists@.len() == 0,
    {
        PolicyConfig { prefix_lists: Vec::new(), community_lists: Vec::new() }
    }
}

/// A named prefix list for route filtering.
#[derive(Debug, Clone)]
pub struct PrefixList {
    pub name: String,
    pub entries: Vec<PrefixListEntry>,
}

/// A single prefix-list entry.
#[derive(Debug, Clone)]
pub struct PrefixListEntry {
    pub action: FilterAction,
    pub prefix: String,
    pub ge: Option<u8>,
    pub le: Option<u8>,
}

/// A named community list for route filtering.
#[derive(Debug, Clone)]
pub struct CommunityList {
    pub name: String,
    pub communities: Vec<String>,
}

/// Filter action (permit/deny).
#[derive(Debug, Clone, Copy, PartialEq, Eq, Structural)]
pub enum FilterAction {
    Permit,
    Deny,
}

/// Why a configuration was refused.
#[derive(Debug, Clone, Copy, PartialEq, Eq, Structural)]
pub enum ConfigError {
    /// `local_as` is zero.
    ZeroLocalAs,
    /// `hold_time` is 1 or 2.
    HoldTimeTooShort,
}

impl ConfigError {
    /// The operator-facing text of the error.
    pub fn message(&self) -> (r: &'static str)
        ensures
            *self == ConfigError::ZeroLocalAs ==> r@ == "local_as must be non-zero"@,
            *self == ConfigError::HoldTimeTooShort ==> r@ == "hold_time must be 0 or >= 3 seconds"@,
    {
        match self {
            ConfigError::ZeroLocalAs => "local_as must be non-zero",
            ConfigError::HoldTimeTooShort => "hold_time must be 0 or >= 3 seconds",
        }
    }
}

/// The validity rule for router settings, as `validate` checks it.
pub open spec fn spec_validate(r: RouterConfig) -> Result<(), ConfigError> {
    if r.local_as == 0 {
        Err(ConfigError::ZeroLocalAs)
    } else if r.hold_time != 0 && r.hold_time < 3 {
        Err(ConfigError::HoldTimeTooShort)
    } else {
        Ok(())
    }
}

impl Config {
    /// Checks the router settings: a non-zero local AS, and a hold time of
    /// zero or at least three seconds.
    pub fn validate(&self) -> (r: Result<(), ConfigError>)
        ensures
            r == spec_validate(self.router),
    {
        if self.router.local_as == 0 {
            return Err(ConfigError::ZeroLocalAs);
        }
        if self.router.hold_time != 0 && self.router.hold_time < 3 {
            return Err(ConfigError::HoldTimeTooShort);
        }
        Ok(())
    }
}

} // verus!
