//! Datagrams that a SOCKS5 proxy relays.

use super::socks::address_bytes;
use super::{AddressModel, SocksAddress};
use crate::bytes::{be16, be16_bytes};
use crate::net::{IpAddress, SocketAddress};
use vstd::prelude::*;

verus! {

#[derive(Clone, Copy, Debug, PartialEq, Eq)]
pub enum Address<'a> {
    Socket(SocketAddress),
    Domain { name: &'a [u8], port: u16 },
}

impl<'a> View for Address<'a> {
    type V = AddressModel;

    open spec fn view(&self) -> AddressModel {
        match *self {
            Address::Socket(address) => AddressModel::Socket(address),
            Address::Domain { name, port } => AddressModel::Domain { name: name@, port },
        }
    }
}

#[derive(Clone, Copy, Debug, PartialEq, Eq)]
pub struct Datagram<'a> {
    pub destination: Address<'a>,
    pub payload: &'a [u8],
}

#[derive(Clone, Copy, Debug, PartialEq, Eq, Structural)]
pub enum Error {
    /// The input ends too early.
    Truncated,
    /// A reserved octet is not zero.
    InvalidReserved,
    /// The datagram is a fragment.
    UnsupportedFragment(u8),
    /// The address type is not known.
    UnsupportedAddress,
    /// The name is empty or has more than 255 octets.
    InvalidDomain,
    /// The output has no room.
    OutputTooSmall,
}

/// The octets of an address: its type, the address or name, and its port.
pub open spec fn destination_bytes(address: AddressModel) -> Seq<u8> {
    match address {
        AddressModel::Socket(socket) => address_bytes(socket),
        AddressModel::Domain { name, port } => seq![3u8, name.len() as u8] + name + be16_bytes(
            port,
        ),
    }
}

/// The octets of a relayed datagram.
pub open spec fn relayed(address: AddressModel, payload: Seq<u8>) -> Seq<u8> {
    seq![0u8, 0u8, 0u8] + destination_bytes(address) + payload
}

/// Why a datagram cannot be written into `room` octets, if it cannot.
pub open spec fn encode_error(address: AddressModel, payload: Seq<u8>, room: nat) -> Option<
    Error,
> {
    if address matches AddressModel::Domain { name, .. } && !(0 < name.len() <= 255) {
        Some(Error::InvalidDomain)
    } else if room < relayed(address, payload).len() {
        Some(Error::OutputTooSmall)
    } else {
        None
    }
}

fn destination_octets(destination: &SocksAddress) -> (octets: Vec<u8>)
    requires
        destination@ matches AddressModel::Domain { name, .. } ==> name.len() <= 255,
    ensures
        octets@ == destination_bytes(destination@),
{
    let mut octets: Vec<u8> = Vec::new();
    match destination {
        SocksAddress::Socket(address) => {
            match address.ip {
                IpAddress::V4(ip) => {
                    octets.push(1);
                    crate::text::push_all(&mut octets, &ip);
                },
                IpAddress::V6(ip) => {
                    octets.push(4);
                    crate::text::push_all(&mut octets, &ip);
                },
            }
            crate::text::push_all(&mut octets, &crate::bytes::be16_octets(address.port));
        },
        SocksAddress::Domain { name, port } => {
            octets.push(3);
            octets.push(name.len() as u8);
            crate::text::push_all(&mut octets, name.as_slice());
            crate::text::push_all(&mut octets, &crate::bytes::be16_octets(*port));
        },
    }
    assert(octets@ =~= destination_bytes(destination@));
    octets
}

/// Writes a datagram for the relay and tells its length.
pub fn encode(out: &mut [u8], destination: &SocksAddress, payload: &[u8]) -> (result: Result<
    usize,
    Error,
>)
    ensures
        final(out)@.len() == old(out)@.len(),
        match result {
            Ok(length) => {
                &&& encode_error(destination@, payload@, old(out)@.len()) is None
                &&& length == relayed(destination@, payload@).len()
                &&& final(out)@ == relayed(destination@, payload@) + old(out)@.skip(length as int)
            },
            Err(error) => {
                &&& encode_error(destination@, payload@, old(out)@.len()) == Some(error)
                &&& final(out)@ == old(out)@
            },
        },
{
    if let SocksAddress::Domain { name, .. } = destination {
        if name.len() == 0 || name.len() > 255 {
            return Err(Error::InvalidDomain);
        }
    }
    let octets = destination_octets(destination);
    let header: usize = 3 + octets.len();
    let room: usize = out.len();
    if room < header || room - header < payload.len() {
        return Err(Error::OutputTooSmall);
    }
    let ghost before = out@;
    crate::bytes::put(out, 0, &[0, 0, 0]);
    crate::bytes::put(out, 3, octets.as_slice());
    crate::bytes::put(out, header, payload);
    let total: usize = header + payload.len();
    assert(out@ =~= relayed(destination@, payload@) + before.skip(total as int));
    Ok(total)
}

/// What a relayed datagram holds, or why it does not hold one.
pub open spec fn decoded(input: Seq<u8>) -> Result<(AddressModel, Seq<u8>), Error> {
    if input.len() < 4 {
        Err(Error::Truncated)
    } else if input[0] != 0 || input[1] != 0 {
        Err(Error::InvalidReserved)
    } else if input[2] != 0 {
        Err(Error::UnsupportedFragment(input[2]))
    } else if input[3] == 1 {
        if input.len() < 10 {
            Err(Error::Truncated)
        } else {
            Ok(
                (
                    AddressModel::Socket(
                        SocketAddress::spec_new(
                            IpAddress::V4([input[4], input[5], input[6], input[7]]),
                            be16(input, 8),
                        ),
                    ),
                    input.skip(10),
                ),
            )
        }
    } else if input[3] == 4 {
        if input.len() < 22 {
            Err(Error::Truncated)
        } else {
            Ok(
                (
                    AddressModel::Socket(
                        SocketAddress::spec_new(
                            IpAddress::V6(
                                [
                                    input[4],
                                    input[5],
                                    input[6],
                                    input[7],
                                    input[8],
                                    input[9],
                                    input[10],
                                    input[11],
                                    input[12],
                                    input[13],
                                    input[14],
                                    input[15],
                                    input[16],
                                    input[17],
                                    input[18],
                                    input[19],
                                ],
                            ),
                            be16(input, 20),
                        ),
                    ),
                    input.skip(22),
                ),
            )
        }
    } else if input[3] == 3 {
        if input.len() < 5 {
            Err(Error::Truncated)
        } else if input[4] == 0 {
            Err(Error::InvalidDomain)
        } else if input.len() < 7 + input[4] {
            Err(Error::Truncated)
        } else {
            Ok(
                (
                    AddressModel::Domain {
                        name: input.subrange(5, 5 + input[4]),
                        port: be16(input, 5 + input[4]),
                    },
                    input.skip(7 + input[4]),
                ),
            )
        }
    } else {
        Err(Error::UnsupportedAddress)
    }
}

/// Reads a datagram from the relay.
pub fn decode(input: &[u8]) -> (result: Result<Datagram<'_>, Error>)
    ensures
        match result {
            Ok(datagram) => decoded(input@) == Ok::<(AddressModel, Seq<u8>), Error>(
                (datagram.destination@, datagram.payload@),
            ),
            Err(error) => decoded(input@) == Err::<(AddressModel, Seq<u8>), Error>(error),
        },
{
    let size: usize = input.len();
    if size < 4 {
        return Err(Error::Truncated);
    }
    if input[0] != 0 || input[1] != 0 {
        return Err(Error::InvalidReserved);
    }
    if input[2] != 0 {
        return Err(Error::UnsupportedFragment(input[2]));
    }
    let destination;
    let offset: usize;
    match input[3] {
        1 => {
            if size < 10 {
                return Err(Error::Truncated);
            }
            let octets = [input[4], input[5], input[6], input[7]];
            destination =
            Address::Socket(SocketAddress::v4(octets, crate::bytes::read_be16(input, 8)));
            offset = 10;
        },
        4 => {
            if size < 22 {
                return Err(Error::Truncated);
            }
            let octets = [
                input[4],
                input[5],
                input[6],
                input[7],
                input[8],
                input[9],
                input[10],
                input[11],
                input[12],
                input[13],
                input[14],
                input[15],
                input[16],
                input[17],
                input[18],
                input[19],
            ];
            destination =
            Address::Socket(SocketAddress::v6(octets, crate::bytes::read_be16(input, 20)));
            offset = 22;
        },
        3 => {
            if size < 5 {
                return Err(Error::Truncated);
            }
            let length: usize = input[4] as usize;
            if length == 0 {
                return Err(Error::InvalidDomain);
            }
            let end: usize = 5 + length;
            if size < end + 2 {
                return Err(Error::Truncated);
            }
            destination =
            Address::Domain {
                name: vstd::slice::slice_subrange(input, 5, end),
                port: crate::bytes::read_be16(input, end),
            };
            offset = end + 2;
        },
        _ => return Err(Error::UnsupportedAddress),
    }
    let payload = vstd::slice::slice_subrange(input, offset, size);
    assert(payload@ =~= input@.skip(offset as int));
    Ok(Datagram { destination, payload })
}

/// What is written for the relay reads back: the address and the payload.
pub proof fn law_datagram_round_trip(address: AddressModel, payload: Seq<u8>)
    requires
        address matches AddressModel::Domain { name, .. } ==> 0 < name.len() <= 255,
    ensures
        decoded(relayed(address, payload)) == Ok::<(AddressModel, Seq<u8>), Error>(
            (
                match address {
                    AddressModel::Socket(socket) => AddressModel::Socket(
                        SocketAddress::spec_new(socket.ip, socket.port),
                    ),
                    AddressModel::Domain { name, port } => AddressModel::Domain { name, port },
                },
                payload,
            ),
        ),
{
    let s = relayed(address, payload);
    match address {
        AddressModel::Socket(socket) => {
            let port = be16_bytes(socket.port);
            match socket.ip {
                IpAddress::V4(octets) => {
                    let read = [s[4], s[5], s[6], s[7]];
                    assert(read@ =~= octets@);
                    assert(read =~= octets);
                    assert(s[8] == port[0] && s[9] == port[1]);
                    assert(s.skip(10) =~= payload);
                },
                IpAddress::V6(octets) => {
                    let read = [
                        s[4],
                        s[5],
                        s[6],
                        s[7],
                        s[8],
                        s[9],
                        s[10],
                        s[11],
                        s[12],
                        s[13],
                        s[14],
                        s[15],
                        s[16],
                        s[17],
                        s[18],
                        s[19],
                    ];
                    assert(read@ =~= octets@);
                    assert(read =~= octets);
                    assert(s[20] == port[0] && s[21] == port[1]);
                    assert(s.skip(22) =~= payload);
                },
            }
        },
        AddressModel::Domain { name, port } => {
            let octets = be16_bytes(port);
            let length = name.len() as int;
            assert(s[4] == length);
            assert(s.subrange(5, 5 + length) =~= name);
            assert(s[5 + length] == octets[0] && s[6 + length] == octets[1]);
            assert(s.skip(7 + length) =~= payload);
        },
    }
}

/// A relayed datagram is three zero octets, the type of its address, the
/// address, its port with the higher octet first, and the payload.
pub proof fn law_relayed_datagram_has_its_form(address: AddressModel, payload: Seq<u8>)
    requires
        address matches AddressModel::Domain { name, .. } ==> 0 < name.len() <= 255,
    ensures
        ({
            let all = relayed(address, payload);
            &&& all[0] == 0 && all[1] == 0 && all[2] == 0
            &&& match address {
                AddressModel::Domain { name, port } => {
                    &&& all[3] == 3
                    &&& all[4] == name.len()
                    &&& all.subrange(5, 5int + name.len()) == name
                    &&& 256 * all[5int + name.len()] + all[6int + name.len()] == port
                    &&& all.skip(7 + name.len() as int) == payload
                },
                AddressModel::Socket(socket) => match socket.ip {
                    IpAddress::V4(ip) => {
                        &&& all[3] == 1
                        &&& all.subrange(4, 8) == ip@
                        &&& 256 * all[8] + all[9] == socket.port
                        &&& all.skip(10) == payload
                    },
                    IpAddress::V6(ip) => {
                        &&& all[3] == 4
                        &&& all.subrange(4, 20) == ip@
                        &&& 256 * all[20] + all[21] == socket.port
                        &&& all.skip(22) == payload
                    },
                },
            }
        }),
{
    let all = relayed(address, payload);
    match address {
        AddressModel::Domain { name, port } => {
            crate::bytes::law_octet_orders(all, 0, port, 0);
            let octets = be16_bytes(port);
            assert(all.subrange(5, 5int + name.len()) =~= name);
            assert(all[5int + name.len()] == octets[0] && all[6int + name.len()] == octets[1]);
            assert(all.skip(7 + name.len() as int) =~= payload);
        },
        AddressModel::Socket(socket) => {
            crate::bytes::law_octet_orders(all, 0, socket.port, 0);
            let octets = be16_bytes(socket.port);
            match socket.ip {
                IpAddress::V4(ip) => {
                    assert(all.subrange(4, 8) =~= ip@);
                    assert(all[8] == octets[0] && all[9] == octets[1]);
                    assert(all.skip(10) =~= payload);
                },
                IpAddress::V6(ip) => {
                    assert(all.subrange(4, 20) =~= ip@);
                    assert(all[20] == octets[0] && all[21] == octets[1]);
                    assert(all.skip(22) =~= payload);
                },
            }
        },
    }
}

/// What comes from the relay is read exactly when its reserved octets and its
/// fragment number are zero, its type is known and all of its address has come;
/// the payload is what follows.
pub proof fn law_relayed_datagram_acceptance(input: Seq<u8>)
    ensures
        decoded(input) is Ok <==> {
            &&& input.len() >= 4
            &&& input[0] == 0 && input[1] == 0 && input[2] == 0
            &&& (input[3] == 1 && input.len() >= 10) || (input[3] == 4 && input.len() >= 22) || (
            input[3] == 3 && input.len() >= 8 && input[4] != 0 && input.len() >= 7 + input[4])
        },
        decoded(input) is Ok && input[3] == 1 ==> {
            let (address, payload) = decoded(input)->Ok_0;
            &&& address is Socket
            &&& address->Socket_0.ip is V4
            &&& address->Socket_0.ip->V4_0@ == input.subrange(4, 8)
            &&& address->Socket_0.port == 256 * input[8] + input[9]
            &&& payload == input.skip(10)
        },
        decoded(input) is Ok && input[3] == 4 ==> {
            let (address, payload) = decoded(input)->Ok_0;
            &&& address is Socket
            &&& address->Socket_0.ip is V6
            &&& address->Socket_0.ip->V6_0@ == input.subrange(4, 20)
            &&& address->Socket_0.port == 256 * input[20] + input[21]
            &&& payload == input.skip(22)
        },
        decoded(input) is Ok && input[3] == 3 ==> {
            let (address, payload) = decoded(input)->Ok_0;
            let end = 5 + input[4];
            &&& address is Domain
            &&& address->Domain_name == input.subrange(5, end)
            &&& address->Domain_port == 256 * input[end] + input[end + 1]
            &&& payload == input.skip(end + 2)
        },
        input.len() >= 4 && input[0] == 0 && input[1] == 0 && input[2] != 0 ==> decoded(input)
            == Err::<(AddressModel, Seq<u8>), Error>(Error::UnsupportedFragment(input[2])),
{
    if decoded(input) is Ok {
        if input[3] == 1 {
            crate::bytes::law_octet_orders(input, 8, 0, 0);
            assert(decoded(input)->Ok_0.0->Socket_0.ip->V4_0@ =~= input.subrange(4, 8));
        } else if input[3] == 4 {
            crate::bytes::law_octet_orders(input, 20, 0, 0);
            assert(decoded(input)->Ok_0.0->Socket_0.ip->V6_0@ =~= input.subrange(4, 20));
        } else {
            crate::bytes::law_octet_orders(input, 5 + input[4], 0, 0);
        }
    }
}

/// A datagram is written exactly when its name has one to 255 octets, if it has
/// one, and there is room for all of it.
pub proof fn law_datagram_needs_its_room(address: AddressModel, payload: Seq<u8>, room: nat)
    ensures
        encode_error(address, payload, room) is None <==> {
            &&& address matches AddressModel::Domain { name, .. } ==> 1 <= name.len() <= 255
            &&& relayed(address, payload).len() <= room
        },
{
}

} // verus!
