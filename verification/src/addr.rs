//! Peer addresses as plain values.

use vstd::prelude::*;

verus! {

/// The address of a peer: an IP address and a port.
///
/// IP addresses are held as the integers that their octets spell, most
/// significant octet first.
#[derive(Clone, Copy, Debug, PartialEq, Eq, Structural)]
pub enum PeerAddr {
    /// An IPv4 address and port.
    V4 {
        /// The 32-bit address.
        ipv4: u32,
        /// The port.
        port: u16,
    },
    /// An IPv6 address and port, with the flow label and scope of the socket.
    V6 {
        /// The 128-bit address.
        ipv6: u128,
        /// The port.
        port: u16,
        /// The flow information.
        flowinfo: u32,
        /// The scope identifier.
        scope_id: u32,
    },
}

} // verus!
