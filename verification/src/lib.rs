//! PathForge: BGP-4 wire formats, routing information base, decision process
//! and routing policy, with machine-checked contracts.

pub mod attr;
pub mod buffer;
pub mod capabilities;
pub mod config;
pub mod fsm;
pub mod message;
pub mod metrics;
pub mod mgmt;
pub mod mp;
pub mod net;
pub mod peer;
pub mod policy;
pub mod rib;
pub mod rpki;
pub mod rr;
pub mod search;
pub mod text;
pub mod timer;
pub mod wire;
