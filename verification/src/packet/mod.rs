//! Frame, packet and segment formats.

use vstd::prelude::*;

pub mod checksum;
pub mod ethernet;
pub mod icmp;
pub mod ip;
pub mod neighbor;
pub mod tcp;
pub mod udp;
pub mod vnet;

pub use ethernet::{EtherType, EthernetFrame, MacAddress};
pub use ip::{IpPacket, Ipv4Packet, Ipv6Packet};
pub use tcp::TcpSegment;
pub use udp::UdpDatagram;

verus! {

#[derive(Clone, Copy, Debug, PartialEq, Eq, Structural)]
pub enum PacketError {
    /// The packet is truncated.
    Truncated,
    /// The packet contains an invalid length or offset.
    InvalidLength,
    /// The packet uses an unsupported feature.
    Unsupported,
    /// The packet checksum is invalid.
    InvalidChecksum,
    /// The packet protocol does not match the expected protocol.
    ProtocolMismatch,
}

} // verus!
