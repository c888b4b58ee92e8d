//! The exchanges of the soak client.

use super::dns_client::{build_query, lemma_short_names_fit, query_message};
use crate::address_text::octets_of;
use crate::bytes::{be16, le64_bytes, read_be16, zeros};
use crate::net::{IpAddress, SocketAddress};
use crate::text::{decimal, push_all, push_decimal};
use vstd::prelude::*;

verus! {

pub const TCP_PAYLOAD: usize = 4096;

pub const UDP_PAYLOAD: usize = 1024;

/// The address that a socket towards `target` is bound to: any, in its family.
#[must_use]
pub fn bind_address(target: SocketAddress) -> (address: SocketAddress)
    ensures
        address.ip is V4 == target.ip is V4,
        octets_of(address.ip) == zeros(octets_of(target.ip).len()),
        address.port == 0,
        address.flowinfo == 0,
        address.scope_id == 0,
{
    let address = match target.ip {
        IpAddress::V4(_) => SocketAddress::v4([0u8; 4], 0),
        IpAddress::V6(_) => SocketAddress::v6([0u8; 16], 0),
    };
    assert(octets_of(address.ip) =~= zeros(octets_of(target.ip).len()));
    address
}

/// A payload that starts with the number of its round, in the order of the
/// smallest octet first, and is filled up.
#[must_use]
pub fn stamped_payload(round: u64, filler: u8, length: usize) -> (payload: Vec<u8>)
    requires
        length >= 8,
    ensures
        payload@ == le64_bytes(round) + Seq::new((length - 8) as nat, |i: int| filler),
{
    let mut payload: Vec<u8> = Vec::new();
    let low: [u8; 4] = crate::bytes::le32_octets((round % 0x1_0000_0000) as u32);
    let high: [u8; 4] = crate::bytes::le32_octets((round / 0x1_0000_0000) as u32);
    push_all(&mut payload, &low);
    push_all(&mut payload, &high);
    assert(payload@ =~= le64_bytes(round));
    let mut i: usize = 8;
    while i < length
        invariant
            8 <= i <= length,
            payload@ =~= le64_bytes(round) + Seq::new((i - 8) as nat, |k: int| filler),
        decreases length - i,
    {
        payload.push(filler);
        i = i + 1;
    }
    payload
}

/// The name that the soak client asks for.
pub open spec fn soak_name() -> Seq<u8> {
    // phase2.soak
    seq![112u8, 104u8, 97u8, 115u8, 101u8, 50u8, 46u8, 115u8, 111u8, 97u8, 107u8]
}

#[must_use]
pub fn dns_query(id: u16) -> (message: Vec<u8>)
    ensures
        message@ == query_message(id, soak_name(), None),
{
    let name: [u8; 11] = [112, 104, 97, 115, 101, 50, 46, 115, 111, 97, 107];
    proof {
        assert(name@ =~= soak_name());
        lemma_short_names_fit(soak_name());
    }
    build_query(id, &name, None)
}

/// Whether a reply to the query with this identifier is a success.
#[must_use]
pub fn dns_reply_is_valid(id: u16, reply: &[u8]) -> (valid: bool)
    ensures
        valid == (reply@.len() >= 12 && be16(reply@, 0) == id && reply@[3] % 16 == 0),
{
    reply.len() >= 12 && read_be16(reply, 0) == id && reply[3] % 16 == 0
}

/// What is printed after so many rounds.
pub open spec fn summary_line(rounds: nat) -> Seq<u8> {
    // iterations= tcp_bytes= udp_bytes= dns_queries=
    seq![105u8, 116u8, 101u8, 114u8, 97u8, 116u8, 105u8, 111u8, 110u8, 115u8, 61u8] + decimal(
        rounds,
    ) + seq![32u8, 116u8, 99u8, 112u8, 95u8, 98u8, 121u8, 116u8, 101u8, 115u8, 61u8] + decimal(
        rounds * 4096,
    ) + seq![32u8, 117u8, 100u8, 112u8, 95u8, 98u8, 121u8, 116u8, 101u8, 115u8, 61u8] + decimal(
        rounds * 1024,
    ) + seq![
        32u8,
        100u8,
        110u8,
        115u8,
        95u8,
        113u8,
        117u8,
        101u8,
        114u8,
        105u8,
        101u8,
        115u8,
        61u8,
    ] + decimal(rounds)
}

#[must_use]
pub fn summary(rounds: u64) -> (text: Vec<u8>)
    requires
        rounds * TCP_PAYLOAD <= u64::MAX,
    ensures
        text@ == summary_line(rounds as nat),
{
    let mut text: Vec<u8> = Vec::new();
    push_all(&mut text, &[105, 116, 101, 114, 97, 116, 105, 111, 110, 115, 61]);
    push_decimal(&mut text, rounds);
    push_all(&mut text, &[32, 116, 99, 112, 95, 98, 121, 116, 101, 115, 61]);
    push_decimal(&mut text, rounds * 4096);
    push_all(&mut text, &[32, 117, 100, 112, 95, 98, 121, 116, 101, 115, 61]);
    push_decimal(&mut text, rounds * 1024);
    push_all(&mut text, &[32, 100, 110, 115, 95, 113, 117, 101, 114, 105, 101, 115, 61]);
    push_decimal(&mut text, rounds);
    assert(text@ =~= summary_line(rounds as nat));
    text
}

} // verus!
