//! Socket addresses as plain values.

use vstd::prelude::*;

verus! {

/// An IPv4 or IPv6 socket address: the address bits, the port, and for IPv6
/// the flow label and scope.
#[allow(inconsistent_fields)]
#[derive(Clone, Copy, Debug, PartialEq, Eq, Structural)]
pub enum SocketAddress {
    V4 { ip: u32, port: u16 },
    V6 { ip: u128, port: u16, flowinfo: u32, scope_id: u32 },
}

impl SocketAddress {
    pub open spec fn port_spec(self) -> u16 {
        match self {
            SocketAddress::V4 { port, .. } => port,
            SocketAddress::V6 { port, .. } => port,
        }
    }

    /// The same address with its port replaced.
    pub open spec fn with_port_spec(self, p: u16) -> SocketAddress {
        match self {
            SocketAddress::V4 { ip, .. } => SocketAddress::V4 { ip, port: p },
            SocketAddress::V6 { ip, flowinfo, scope_id, .. } => SocketAddress::V6 {
                ip,
                port: p,
                flowinfo,
                scope_id,
            },
        }
    }

    pub fn port(&self) -> (r: u16)
        ensures
            r == self.port_spec(),
    {
        match self {
            SocketAddress::V4 { port, .. } => *port,
            SocketAddress::V6 { port, .. } => *port,
        }
    }

    pub fn is_ipv6(&self) -> (r: bool)
        ensures
            r == (*self is V6),
    {
        match self {
            SocketAddress::V4 { .. } => false,
            SocketAddress::V6 { .. } => true,
        }
    }

    /// The same address with its port replaced.
    pub fn with_port(&self, p: u16) -> (r: SocketAddress)
        ensures
            r == self.with_port_spec(p),
    {
        match self {
            SocketAddress::V4 { ip, .. } => SocketAddress::V4 { ip: *ip, port: p },
            SocketAddress::V6 { ip, flowinfo, scope_id, .. } => SocketAddress::V6 {
                ip: *ip,
                port: p,
                flowinfo: *flowinfo,
                scope_id: *scope_id,
            },
        }
    }

    /// The unspecified address of the same family (`0.0.0.0` or `::`) on port `p`.
    pub open spec fn unspecified_like_spec(self, p: u16) -> SocketAddress {
        match self {
            SocketAddress::V4 { .. } => SocketAddress::V4 { ip: 0, port: p },
            SocketAddress::V6 { .. } => SocketAddress::V6 { ip: 0, port: p, flowinfo: 0, scope_id: 0 },
        }
    }

    /// The unspecified address of the same family (`0.0.0.0` or `::`) on port `p`.
    pub fn unspecified_like(&self, p: u16) -> (r: SocketAddress)
        ensures
            r == self.unspecified_like_spec(p),
    {
        match self {
            SocketAddress::V4 { .. } => SocketAddress::V4 { ip: 0, port: p },
            SocketAddress::V6 { .. } => SocketAddress::V6 { ip: 0, port: p, flowinfo: 0, scope_id: 0 },
        }
    }
}

} // verus!
