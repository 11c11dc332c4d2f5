//! RPKI route origin validation against a local ROA table (RFC 6811).
//!
//! Given a route with (prefix, origin AS):
//! - **Valid**: at least one ROA covers the prefix and names the origin AS.
//! - **Invalid**: some ROA covers the prefix, but none names the origin AS.
//! - **NotFound**: no ROA covers the prefix.
//!
//! A ROA covers a prefix when the prefix lies inside the ROA's network and its
//! length is between the ROA's length and its max-length.

use crate::net::{high_bits, same_network};
use vstd::prelude::*;

verus! {

/// ROA (Route Origin Authorization) entry in the local table.
#[derive(Debug, Clone, Copy, PartialEq, Eq, Structural)]
pub struct Roa {
    pub prefix: u32,
    pub prefix_len: u8,
    /// Maximum prefix length this ROA covers (inclusive).
    pub max_length: u8,
    pub origin_as: u32,
}

/// Whether `roa` covers the prefix `addr`/`len`.
pub open spec fn spec_covers(roa: Roa, addr: u32, len: u8) -> bool {
    roa.prefix_len <= len <= roa.max_length && same_network(roa.prefix, addr, roa.prefix_len)
}

impl Roa {
    pub fn new(prefix: u32, prefix_len: u8, max_length: u8, origin_as: u32) -> (r: Self)
        ensures
            r == (Roa { prefix, prefix_len, max_length, origin_as }),
    {
        Roa { prefix, prefix_len, max_length, origin_as }
    }

    /// True if this ROA covers the given prefix (address + length).
    pub fn covers(&self, addr: u32, len: u8) -> (r: bool)
        ensures
            r == spec_covers(*self, addr, len),
    {
        if len < self.prefix_len || len > self.max_length {
            return false;
        }
        high_bits(self.prefix, self.prefix_len) == high_bits(addr, self.prefix_len)
    }
}

/// ROV validation state for a route (RFC 6811 §2).
#[derive(Debug, Clone, Copy, PartialEq, Eq, Structural)]
pub enum RovState {
    Valid,
    Invalid,
    NotFound,
}

impl RovState {
    /// The state's name: `valid`, `invalid` or `not-found`.
    pub fn to_string(&self) -> (r: String)
        ensures
            r@ == match *self {
                RovState::Valid => "valid"@,
                RovState::Invalid => "invalid"@,
                RovState::NotFound => "not-found"@,
            },
    {
        match self {
            RovState::Valid => String::from_str("valid"),
            RovState::Invalid => String::from_str("invalid"),
            RovState::NotFound => String::from_str("not-found"),
        }
    }
}

impl Default for RovState {
    fn default() -> (r: Self)
        ensures
            r == RovState::NotFound,
    {
        RovState::NotFound
    }
}

/// RPKI operating mode configured by the operator.
#[derive(Debug, Clone, Copy, PartialEq, Eq, Structural)]
pub enum RpkiMode {
    /// No validation; all routes are `NotFound`.
    Disabled,
    /// Validate and annotate; `Invalid` routes are still accepted.
    Loose,
    /// Validate; `Invalid` routes are rejected.
    Strict,
}

impl RpkiMode {
    /// The mode's name: `disabled`, `loose` or `strict`.
    pub fn to_string(&self) -> (r: String)
        ensures
            r@ == match *self {
                RpkiMode::Disabled => "disabled"@,
                RpkiMode::Loose => "loose"@,
                RpkiMode::Strict => "strict"@,
            },
    {
        match self {
            RpkiMode::Disabled => String::from_str("disabled"),
            RpkiMode::Loose => String::from_str("loose"),
            RpkiMode::Strict => String::from_str("strict"),
        }
    }
}

impl Default for RpkiMode {
    fn default() -> (r: Self)
        ensures
            r == RpkiMode::Disabled,
    {
        RpkiMode::Disabled
    }
}

/// The validation state of `addr`/`len` from `origin_as` against `roas`.
pub open spec fn spec_rov(roas: Seq<Roa>, addr: u32, len: u8, origin_as: u32) -> RovState {
    if exists|i: int| 0 <= i < roas.len() && spec_covers(#[trigger] roas[i], addr, len)
        && roas[i].origin_as == origin_as {
        RovState::Valid
    } else if exists|i: int| 0 <= i < roas.len() && spec_covers(#[trigger] roas[i], addr, len) {
        RovState::Invalid
    } else {
        RovState::NotFound
    }
}

/// RPKI validator: holds a local ROA table and evaluates routes.
#[derive(Debug)]
pub struct RpkiValidator {
    pub mode: RpkiMode,
    /// The ROA table, in the order the ROAs were added.
    pub roas: Vec<Roa>,
}

impl RpkiValidator {
    pub fn new(mode: RpkiMode) -> (r: Self)
        ensures
            r.mode == mode,
            r.roas@.len() == 0,
    {
        RpkiValidator { mode, roas: Vec::new() }
    }

    /// Add a ROA to the local table.
    pub fn add_roa(&mut self, roa: Roa)
        ensures
            final(self).mode == old(self).mode,
            final(self).roas@ == old(self).roas@.push(roa),
    {
        self.roas.push(roa);
    }

    /// Validate a route against the local ROA table (RFC 6811 §2); with
    /// validation disabled every route is `NotFound`.
    pub fn validate(&self, prefix: u32, prefix_len: u8, origin_as: u32) -> (r: RovState)
        ensures
            r == (if self.mode == RpkiMode::Disabled {
                RovState::NotFound
            } else {
                spec_rov(self.roas@, prefix, prefix_len, origin_as)
            }),
    {
        if let RpkiMode::Disabled = self.mode {
            return RovState::NotFound;
        }
        let mut any_covering = false;
        let mut i: usize = 0;
        while i < self.roas.len()
            invariant
                i <= self.roas@.len(),
                self.mode != RpkiMode::Disabled,
                any_covering == exists|j: int|
                    0 <= j < i && spec_covers(#[trigger] self.roas@[j], prefix, prefix_len),
                forall|j: int|
                    0 <= j < i ==> !(spec_covers(#[trigger] self.roas@[j], prefix, prefix_len)
                        && self.roas@[j].origin_as == origin_as),
            decreases self.roas@.len() - i,
        {
            let roa = self.roas[i];
            if roa.covers(prefix, prefix_len) {
                if roa.origin_as == origin_as {
                    assert(spec_covers(self.roas@[i as int], prefix, prefix_len)
                        && self.roas@[i as int].origin_as == origin_as);
                    return RovState::Valid;
                }
                any_covering = true;
            }
            i = i + 1;
        }
        if any_covering {
            let ghost j = choose|j: int|
                0 <= j < i && spec_covers(#[trigger] self.roas@[j], prefix, prefix_len);
            assert(spec_covers(self.roas@[j], prefix, prefix_len));
            RovState::Invalid
        } else {
            RovState::NotFound
        }
    }

    /// Whether a route with the given ROV state is rejected under the current
    /// mode: only `Invalid` routes, and only in `Strict` mode.
    pub fn should_reject(&self, state: RovState) -> (r: bool)
        ensures
            r == (self.mode == RpkiMode::Strict && state == RovState::Invalid),
    {
        match (self.mode, state) {
            (RpkiMode::Strict, RovState::Invalid) => true,
            _ => false,
        }
    }
}

impl Default for RpkiValidator {
    fn default() -> (r: Self)
        ensures
            r.mode == RpkiMode::Disabled,
            r.roas@.len() == 0,
    {
        RpkiValidator::new(RpkiMode::Disabled)
    }
}

} // verus!
