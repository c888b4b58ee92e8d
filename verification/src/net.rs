//! Internet addresses as plain values.

use vstd::prelude::*;

verus! {

/// An IPv4 or IPv6 address, by its octets.
#[derive(Clone, Copy, Debug, Eq, Hash)]
pub enum IpAddress {
    V4([u8; 4]),
    V6([u8; 16]),
}

impl PartialEq for IpAddress {
    fn eq(&self, other: &Self) -> (same: bool) {
        match (*self, *other) {
            (IpAddress::V4(a), IpAddress::V4(b)) => {
                let same = crate::bytes::equal(&a, &b);
                assert(same ==> a =~= b);
                same
            },
            (IpAddress::V6(a), IpAddress::V6(b)) => {
                let same = crate::bytes::equal(&a, &b);
                assert(same ==> a =~= b);
                same
            },
            _ => false,
        }
    }
}

impl vstd::std_specs::cmp::PartialEqSpecImpl for IpAddress {
    open spec fn obeys_eq_spec() -> bool {
        true
    }

    open spec fn eq_spec(&self, other: &Self) -> bool {
        *self == *other
    }
}

/// An address and a port. The last two fields of an IPv6 address are its flow
/// label and its zone.
#[derive(Clone, Copy, Debug, Eq, Hash)]
pub struct SocketAddress {
    pub ip: IpAddress,
    pub port: u16,
    pub flowinfo: u32,
    pub scope_id: u32,
}

impl PartialEq for SocketAddress {
    fn eq(&self, other: &Self) -> (same: bool) {
        self.ip == other.ip && self.port == other.port && self.flowinfo == other.flowinfo
            && self.scope_id == other.scope_id
    }
}

impl vstd::std_specs::cmp::PartialEqSpecImpl for SocketAddress {
    open spec fn obeys_eq_spec() -> bool {
        true
    }

    open spec fn eq_spec(&self, other: &Self) -> bool {
        *self == *other
    }
}

impl SocketAddress {
    /// The address `ip` and `port`, with no flow label and no zone.
    pub open spec fn spec_new(ip: IpAddress, port: u16) -> SocketAddress {
        SocketAddress { ip, port, flowinfo: 0, scope_id: 0 }
    }

    pub fn new(ip: IpAddress, port: u16) -> (address: SocketAddress)
        ensures
            address == SocketAddress::spec_new(ip, port),
    {
        SocketAddress { ip, port, flowinfo: 0, scope_id: 0 }
    }

    pub fn v4(octets: [u8; 4], port: u16) -> (address: SocketAddress)
        ensures
            address == SocketAddress::spec_new(IpAddress::V4(octets), port),
    {
        SocketAddress::new(IpAddress::V4(octets), port)
    }

    pub fn v6(octets: [u8; 16], port: u16) -> (address: SocketAddress)
        ensures
            address == SocketAddress::spec_new(IpAddress::V6(octets), port),
    {
        SocketAddress::new(IpAddress::V6(octets), port)
    }

    pub fn is_ipv4(&self) -> (v4: bool)
        ensures
            v4 == (self.ip is V4),
    {
        match self.ip {
            IpAddress::V4(_) => true,
            IpAddress::V6(_) => false,
        }
    }
}

} // verus!
