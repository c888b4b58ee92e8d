//! SOCKS5 messages.

use super::{AddressModel, Command, Credentials, Error, SocksAddress};
use crate::bytes::{be16, be16_bytes};
use crate::net::{IpAddress, SocketAddress};
use vstd::prelude::*;

verus! {

/// The greeting: which authentication methods are offered.
pub open spec fn greeting(has_credentials: bool) -> Seq<u8> {
    if has_credentials {
        seq![5u8, 2u8, 0u8, 2u8]
    } else {
        seq![5u8, 1u8, 0u8]
    }
}

#[must_use]
pub fn socks_greeting(has_credentials: bool) -> (message: Vec<u8>)
    ensures
        message@ == greeting(has_credentials),
{
    let message: Vec<u8> = if has_credentials {
        vec![5, 2, 0, 2]
    } else {
        vec![5, 1, 0]
    };
    assert(message@ =~= greeting(has_credentials));
    message
}

/// The request that sends a user name and a password.
pub open spec fn auth_request(username: Seq<u8>, password: Seq<u8>) -> Seq<u8> {
    seq![1u8, username.len() as u8] + username + seq![password.len() as u8] + password
}

#[must_use]
pub fn socks_auth_request(credentials: &Credentials) -> (message: Vec<u8>)
    ensures
        message@ == auth_request(credentials.name(), credentials.secret()),
{
    let username = credentials.username();
    let password = credentials.password();
    let mut message: Vec<u8> = Vec::new();
    message.push(1);
    message.push(username.len() as u8);
    crate::text::push_all(&mut message, username);
    message.push(password.len() as u8);
    crate::text::push_all(&mut message, password);
    assert(message@ =~= auth_request(credentials.name(), credentials.secret()));
    message
}

/// The type, octets and port by which SOCKS5 writes an address.
pub open spec fn address_bytes(address: SocketAddress) -> Seq<u8> {
    match address.ip {
        IpAddress::V4(octets) => seq![1u8] + octets@ + be16_bytes(address.port),
        IpAddress::V6(octets) => seq![4u8] + octets@ + be16_bytes(address.port),
    }
}

/// The request for a command toward `target`.
pub open spec fn command_request(command: Command, target: SocketAddress) -> Seq<u8> {
    seq![5u8, command.code(), 0u8] + address_bytes(target)
}

#[must_use]
pub fn socks_command_request(command: Command, target: SocketAddress) -> (message: Vec<u8>)
    ensures
        message@ == command_request(command, target),
{
    let mut message: Vec<u8> = vec![5, command.socks_code(), 0];
    match target.ip {
        IpAddress::V4(octets) => {
            message.push(1);
            crate::text::push_all(&mut message, &octets);
        },
        IpAddress::V6(octets) => {
            message.push(4);
            crate::text::push_all(&mut message, &octets);
        },
    }
    crate::text::push_all(&mut message, &crate::bytes::be16_octets(target.port));
    assert(message@ =~= command_request(command, target));
    message
}

/// The address that `s` writes out, if `s` is exactly one address.
pub open spec fn address_of(s: Seq<u8>) -> Option<AddressModel> {
    if s.len() == 7 && s[0] == 1 {
        Some(
            AddressModel::Socket(
                SocketAddress::spec_new(IpAddress::V4([s[1], s[2], s[3], s[4]]), be16(s, 5)),
            ),
        )
    } else if s.len() == 19 && s[0] == 4 {
        Some(
            AddressModel::Socket(
                SocketAddress::spec_new(
                    IpAddress::V6(
                        [
                            s[1],
                            s[2],
                            s[3],
                            s[4],
                            s[5],
                            s[6],
                            s[7],
                            s[8],
                            s[9],
                            s[10],
                            s[11],
                            s[12],
                            s[13],
                            s[14],
                            s[15],
                            s[16],
                        ],
                    ),
                    be16(s, 17),
                ),
            ),
        )
    } else if s.len() >= 4 && s[0] == 3 && s.len() == s[1] + 4 {
        Some(
            AddressModel::Domain { name: s.subrange(2, 2 + s[1]), port: be16(s, 2 + s[1]) },
        )
    } else {
        None
    }
}

pub fn parse_socks_address(input: &[u8]) -> (result: Result<SocksAddress, Error>)
    ensures
        match result {
            Ok(address) => address_of(input@) == Some(address@),
            Err(error) => {
                &&& address_of(input@) is None
                &&& error == Error::InvalidResponse("SOCKS5 bound address")
            },
        },
{
    if input.len() == 7 && input[0] == 1 {
        let octets = [input[1], input[2], input[3], input[4]];
        return Ok(
            SocksAddress::Socket(
                SocketAddress::v4(octets, crate::bytes::read_be16(input, 5)),
            ),
        );
    }
    if input.len() == 19 && input[0] == 4 {
        let octets = [
            input[1],
            input[2],
            input[3],
            input[4],
            input[5],
            input[6],
            input[7],
            input[8],
            input[9],
            input[10],
            input[11],
            input[12],
            input[13],
            input[14],
            input[15],
            input[16],
        ];
        return Ok(
            SocksAddress::Socket(
                SocketAddress::v6(octets, crate::bytes::read_be16(input, 17)),
            ),
        );
    }
    if input.len() >= 4 && input[0] == 3 && input.len() == input[1] as usize + 4 {
        let end: usize = 2 + input[1] as usize;
        let name = vstd::slice::slice_to_vec(vstd::slice::slice_subrange(input, 2, end));
        let port: u16 = crate::bytes::read_be16(input, end);
        return Ok(SocksAddress::Domain { name, port });
    }
    Err(Error::InvalidResponse("SOCKS5 bound address"))
}

/// A written address reads back.
pub proof fn law_address_round_trip(address: SocketAddress)
    ensures
        address_of(address_bytes(address)) == Some(
            AddressModel::Socket(SocketAddress::spec_new(address.ip, address.port)),
        ),
{
    let s = address_bytes(address);
    match address.ip {
        IpAddress::V4(octets) => {
            let read = [s[1], s[2], s[3], s[4]];
            assert(read@ =~= octets@);
            assert(read =~= octets);
            assert(s[5] == be16_bytes(address.port)[0] && s[6] == be16_bytes(address.port)[1]);
        },
        IpAddress::V6(octets) => {
            let read = [
                s[1],
                s[2],
                s[3],
                s[4],
                s[5],
                s[6],
                s[7],
                s[8],
                s[9],
                s[10],
                s[11],
                s[12],
                s[13],
                s[14],
                s[15],
                s[16],
            ];
            assert(read@ =~= octets@);
            assert(read =~= octets);
            assert(s[17] == be16_bytes(address.port)[0] && s[18] == be16_bytes(address.port)[1]);
        },
    }
}

/// The command names what is asked for, 1 for a connection and 3 for UDP, and then
/// the target: its type, its octets, and its port most significant octet first.
pub proof fn law_command_has_its_form(command: Command, target: SocketAddress)
    ensures
        ({
            let request = command_request(command, target);
            let size = request.len() as int;
            &&& request[0] == 5
            &&& request[1] == match command {
                Command::Connect => 1int,
                Command::UdpAssociate => 3,
            }
            &&& request[2] == 0
            &&& match target.ip {
                IpAddress::V4(octets) => size == 10 && request[3] == 1 && request.subrange(4, 8)
                    == octets@,
                IpAddress::V6(octets) => size == 22 && request[3] == 4 && request.subrange(4, 20)
                    == octets@,
            }
            &&& 256 * request[size - 2] + request[size - 1] == target.port
        }),
{
    let request = command_request(command, target);
    let port = be16_bytes(target.port);
    match target.ip {
        IpAddress::V4(octets) => {
            assert(request.subrange(4, 8) =~= octets@);
            assert(request[8] == port[0] && request[9] == port[1]);
        },
        IpAddress::V6(octets) => {
            assert(request.subrange(4, 20) =~= octets@);
            assert(request[20] == port[0] && request[21] == port[1]);
        },
    }
}

/// The credentials are sent in version 1 of their exchange, each behind its length.
pub proof fn law_credentials_have_their_form(username: Seq<u8>, password: Seq<u8>)
    requires
        username.len() <= 255,
        password.len() <= 255,
    ensures
        ({
            let request = auth_request(username, password);
            let middle = 2 + username.len() as int;
            &&& request.len() == 3 + username.len() + password.len()
            &&& request[0] == 1
            &&& request[1] == username.len()
            &&& request.subrange(2, middle) == username
            &&& request[middle] == password.len()
            &&& request.skip(middle + 1) == password
        }),
{
    let request = auth_request(username, password);
    let middle = 2 + username.len() as int;
    assert(request.subrange(2, middle) =~= username);
    assert(request.skip(middle + 1) =~= password);
}

} // verus!
