//! Network addresses of peers.

use vstd::prelude::*;

verus! {

/// The address that a peer connected from: what a socket address holds, as
/// plain integers. Two addresses are the same when all their parts are.
#[allow(inconsistent_fields)]
#[derive(Debug, Clone, Copy, PartialEq, Eq, Hash, Structural)]
pub enum PeerAddr {
    /// An IPv4 address (the four octets, first octet highest) and a port.
    V4 { ip: u32, port: u16 },
    /// An IPv6 address (the sixteen octets, first octet highest), a port,
    /// the flow information and the scope.
    V6 { ip: u128, port: u16, flowinfo: u32, scope_id: u32 },
}

} // verus!
