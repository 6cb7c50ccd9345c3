//! Common signal names consumed by the built-in security skills and pattern registry.

use vstd::prelude::*;

verus! {

pub const AUTH_SUCCESS: &'static str = "auth.success";
pub const AUTH_FAILURE: &'static str = "auth.failure";
pub const AUTH_FAILURE_BURST: &'static str = "auth.failure.burst";
pub const BEACON_REGULAR: &'static str = "beacon.regular";
pub const DNS_QUERY: &'static str = "dns.query";
pub const ENTROPY_ANOMALOUS: &'static str = "entropy.anomalous";
pub const FANOUT_HIGH: &'static str = "fanout.high";
pub const LATERAL_MOVE: &'static str = "lateral.move";
pub const NET_CONNECT: &'static str = "net.connect";
pub const NETWORK_EGRESS: &'static str = "network.egress";
pub const NETWORK_INGRESS: &'static str = "network.ingress";
pub const PROCESS_SPAWN: &'static str = "process.spawn";

} // verus!
