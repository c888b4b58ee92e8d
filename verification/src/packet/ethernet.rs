//! Ethernet frames.

use super::PacketError;
use crate::bytes::{be16, be16_bytes};
use vstd::prelude::*;

verus! {

pub const ETHERNET_HEADER_LEN: usize = 14;

#[derive(Clone, Copy, Debug, Eq, Hash)]
pub struct MacAddress(pub [u8; 6]);

impl PartialEq for MacAddress {
    fn eq(&self, other: &Self) -> (same: bool) {
        let same = crate::bytes::equal(&self.0, &other.0);
        assert(same ==> self.0 =~= other.0);
        same
    }
}

impl vstd::std_specs::cmp::PartialEqSpecImpl for MacAddress {
    open spec fn obeys_eq_spec() -> bool {
        true
    }

    open spec fn eq_spec(&self, other: &Self) -> bool {
        *self == *other
    }
}

impl MacAddress {
    /// The address that every station listens on.
    pub fn broadcast() -> (address: MacAddress)
        ensures
            address.0@ == Seq::new(6, |i: int| 0xffu8),
    {
        let address = MacAddress([0xff, 0xff, 0xff, 0xff, 0xff, 0xff]);
        assert(address.0@ =~= Seq::new(6, |i: int| 0xffu8));
        address
    }

    #[must_use]
    pub fn octets(self) -> (octets: [u8; 6])
        ensures
            octets == self.0,
    {
        self.0
    }
}

#[derive(Clone, Copy, Debug, PartialEq, Eq, Structural)]
pub enum EtherType {
    Ipv4,
    Arp,
    Ipv6,
    Other(u16),
}

impl EtherType {
    pub open spec fn spec_from_raw(value: u16) -> EtherType {
        if value == 0x0800 {
            EtherType::Ipv4
        } else if value == 0x0806 {
            EtherType::Arp
        } else if value == 0x86dd {
            EtherType::Ipv6
        } else {
            EtherType::Other(value)
        }
    }

    pub open spec fn spec_raw(self) -> u16 {
        match self {
            EtherType::Ipv4 => 0x0800,
            EtherType::Arp => 0x0806,
            EtherType::Ipv6 => 0x86dd,
            EtherType::Other(value) => value,
        }
    }

    #[must_use]
    pub fn from_raw(value: u16) -> (ether_type: EtherType)
        ensures
            ether_type == EtherType::spec_from_raw(value),
    {
        match value {
            0x0800 => EtherType::Ipv4,
            0x0806 => EtherType::Arp,
            0x86dd => EtherType::Ipv6,
            other => EtherType::Other(other),
        }
    }

    #[must_use]
    pub fn raw(self) -> (value: u16)
        ensures
            value == self.spec_raw(),
    {
        match self {
            EtherType::Ipv4 => 0x0800,
            EtherType::Arp => 0x0806,
            EtherType::Ipv6 => 0x86dd,
            EtherType::Other(value) => value,
        }
    }
}

/// The raw value of a type read from the wire is the value that was read.
pub proof fn law_ether_type_round_trip(value: u16)
    ensures
        EtherType::spec_from_raw(value).spec_raw() == value,
{
}

/// The fourteen header octets of a frame.
pub open spec fn header_bytes(
    destination: MacAddress,
    source: MacAddress,
    ether_type: EtherType,
) -> Seq<u8> {
    destination.0@ + source.0@ + be16_bytes(ether_type.spec_raw())
}

#[derive(Debug, Clone, Copy)]
pub struct EthernetFrame<'a> {
    bytes: &'a [u8],
}

impl<'a> View for EthernetFrame<'a> {
    type V = Seq<u8>;

    /// The octets of the frame.
    closed spec fn view(&self) -> Seq<u8> {
        self.bytes@
    }
}

impl<'a> EthernetFrame<'a> {
    #[verifier::type_invariant]
    spec fn holds_header(self) -> bool {
        self.bytes@.len() >= ETHERNET_HEADER_LEN
    }

    pub fn parse(bytes: &'a [u8]) -> (result: Result<EthernetFrame<'a>, PacketError>)
        ensures
            match result {
                Ok(frame) => bytes@.len() >= ETHERNET_HEADER_LEN && frame@ == bytes@,
                Err(error) => bytes@.len() < ETHERNET_HEADER_LEN && error
                    == PacketError::Truncated,
            },
    {
        if bytes.len() < ETHERNET_HEADER_LEN {
            return Err(PacketError::Truncated);
        }
        Ok(EthernetFrame { bytes })
    }

    #[must_use]
    pub fn destination(self) -> (address: MacAddress)
        ensures
            address.0@ == self@.subrange(0, 6),
    {
        proof {
            use_type_invariant(&self);
        }
        MacAddress(crate::bytes::take6(self.bytes, 0))
    }

    #[must_use]
    pub fn source(self) -> (address: MacAddress)
        ensures
            address.0@ == self@.subrange(6, 12),
    {
        proof {
            use_type_invariant(&self);
        }
        MacAddress(crate::bytes::take6(self.bytes, 6))
    }

    #[must_use]
    pub fn ether_type(self) -> (ether_type: EtherType)
        ensures
            ether_type == EtherType::spec_from_raw(be16(self@, 12)),
    {
        proof {
            use_type_invariant(&self);
        }
        EtherType::from_raw(crate::bytes::read_be16(self.bytes, 12))
    }

    #[must_use]
    pub fn payload(self) -> (payload: &'a [u8])
        ensures
            payload@ == self@.skip(ETHERNET_HEADER_LEN as int),
    {
        proof {
            use_type_invariant(&self);
        }
        let payload = vstd::slice::slice_subrange(
            self.bytes,
            ETHERNET_HEADER_LEN,
            self.bytes.len(),
        );
        assert(payload@ =~= self@.skip(ETHERNET_HEADER_LEN as int));
        payload
    }
}

pub fn write_header(
    out: &mut [u8],
    destination: MacAddress,
    source: MacAddress,
    ether_type: EtherType,
) -> (result: Result<(), PacketError>)
    ensures
        match result {
            Ok(()) => {
                &&& old(out)@.len() >= ETHERNET_HEADER_LEN
                &&& final(out)@ == header_bytes(destination, source, ether_type) + old(out)@.skip(
                    ETHERNET_HEADER_LEN as int,
                )
            },
            Err(error) => {
                &&& old(out)@.len() < ETHERNET_HEADER_LEN
                &&& error == PacketError::Truncated
                &&& final(out)@ == old(out)@
            },
        },
{
    if out.len() < ETHERNET_HEADER_LEN {
        return Err(PacketError::Truncated);
    }
    let ghost before = out@;
    crate::bytes::put(out, 0, &destination.0);
    crate::bytes::put(out, 6, &source.0);
    crate::bytes::put(out, 12, &crate::bytes::be16_octets(ether_type.raw()));
    assert(out@ =~= header_bytes(destination, source, ether_type) + before.skip(14));
    Ok(())
}

/// A written header reads back: the frame parses, and gives the addresses, the
/// type by its raw value, and the octets behind the header.
pub proof fn law_header_round_trip(
    destination: MacAddress,
    source: MacAddress,
    ether_type: EtherType,
    payload: Seq<u8>,
)
    ensures
        ({
            let frame = header_bytes(destination, source, ether_type) + payload;
            &&& frame.len() >= ETHERNET_HEADER_LEN
            &&& frame.subrange(0, 6) == destination.0@
            &&& frame.subrange(6, 12) == source.0@
            &&& be16(frame, 12) == ether_type.spec_raw()
            &&& frame.skip(ETHERNET_HEADER_LEN as int) == payload
        }),
{
    let frame = header_bytes(destination, source, ether_type) + payload;
    assert(frame.subrange(0, 6) =~= destination.0@);
    assert(frame.subrange(6, 12) =~= source.0@);
    assert(frame[12] == be16_bytes(ether_type.spec_raw())[0]);
    assert(frame[13] == be16_bytes(ether_type.spec_raw())[1]);
    assert(frame.skip(ETHERNET_HEADER_LEN as int) =~= payload);
}

/// A frame's header is the address it is for, the address it is from, and its type:
/// 0x0800 for IPv4, 0x0806 for ARP and 0x86dd for IPv6.
pub proof fn law_header_has_its_form(
    destination: MacAddress,
    source: MacAddress,
    ether_type: EtherType,
)
    ensures
        ({
            let header = header_bytes(destination, source, ether_type);
            &&& header.len() == 14
            &&& header.subrange(0, 6) == destination.0@
            &&& header.subrange(6, 12) == source.0@
            &&& 256 * header[12] + header[13] == match ether_type {
                EtherType::Ipv4 => 0x0800,
                EtherType::Arp => 0x0806,
                EtherType::Ipv6 => 0x86dd,
                EtherType::Other(value) => value as int,
            }
        }),
        EtherType::spec_from_raw(0x0800) == EtherType::Ipv4,
        EtherType::spec_from_raw(0x0806) == EtherType::Arp,
        EtherType::spec_from_raw(0x86dd) == EtherType::Ipv6,
{
    let header = header_bytes(destination, source, ether_type);
    let raw = be16_bytes(ether_type.spec_raw());
    assert(header.subrange(0, 6) =~= destination.0@);
    assert(header.subrange(6, 12) =~= source.0@);
    assert(header[12] == raw[0] && header[13] == raw[1]);
}

} // verus!
