//! Addresses with ports read from text.

use crate::address_text::{
    address_of, ipv4_of, ipv6_of, lemma_address_text_octets,
    lemma_ipv4_reads, lemma_ipv6_reads, lemma_place_bounds, lemma_place_is, octets_of, parse_address,
    parse_ipv4, parse_ipv6, place_of,
};
use crate::net::{IpAddress, SocketAddress};
use crate::proxy_proto::http::authority_text;
use crate::text::{all_digits, decimal, digits_value, ip_text};
use vstd::prelude::*;

verus! {

/// A decimal number of at most `most`, in digits alone.
pub open spec fn plain_number(s: Seq<u8>, most: nat) -> Option<nat> {
    if s.len() > 0 && all_digits(s) && digits_value(s) <= most {
        Some(digits_value(s))
    } else {
        None
    }
}

/// Reads a number in digits alone.
pub fn parse_plain_number(s: &[u8], most: u64) -> (value: Option<u64>)
    requires
        most <= 0xffff_ffff,
    ensures
        match value {
            Some(n) => plain_number(s@, most as nat) == Some(n as nat),
            None => plain_number(s@, most as nat) is None,
        },
{
    if s.len() == 0 || s[0] == 43 {
        assert(s@.len() > 0 ==> !all_digits(s@));
        return None;
    }
    crate::text::parse_number(s, most)
}

/// The address and the port that `s` writes out, an IPv6 address in brackets and
/// perhaps with its zone.
pub open spec fn socket_address_of(s: Seq<u8>) -> Option<(Seq<u8>, u16, u32)> {
    if s.len() > 0 && s[0] == 91 {
        let close = place_of(s, 93, 0);
        let inside = s.subrange(1, close);
        let zone_mark = place_of(inside, 37, 0);
        let zone = if zone_mark < inside.len() {
            plain_number(inside.skip(zone_mark + 1), u32::MAX as nat)
        } else {
            Some(0)
        };
        let ip = ipv6_of(
            if zone_mark < inside.len() {
                inside.take(zone_mark)
            } else {
                inside
            },
        );
        if close + 1 < s.len() && s[close + 1] == 58 && zone is Some && ip is Some {
            match plain_number(s.skip(close + 2), u16::MAX as nat) {
                Some(port) => Some((ip->0, port as u16, zone->0 as u32)),
                None => None,
            }
        } else {
            None
        }
    } else {
        let colon = place_of(s, 58, 0);
        let ip = ipv4_of(s.take(colon));
        if colon < s.len() && ip is Some {
            match plain_number(s.skip(colon + 1), u16::MAX as nat) {
                Some(port) => Some((ip->0, port as u16, 0)),
                None => None,
            }
        } else {
            None
        }
    }
}

/// The first place of `sep`, or the end.
pub fn find(s: &[u8], sep: u8) -> (place: usize)
    ensures
        place == place_of(s@, sep, 0),
        place <= s@.len(),
{
    let mut i: usize = 0;
    while i < s.len() && s[i] != sep
        invariant
            i <= s@.len(),
            place_of(s@, sep, i as int) == place_of(s@, sep, 0),
        decreases s@.len() - i,
    {
        i = i + 1;
    }
    i
}

/// Whether `address` is what was read.
pub open spec fn is_read(address: SocketAddress, read: (Seq<u8>, u16, u32)) -> bool {
    &&& octets_of(address.ip) == read.0
    &&& address.port == read.1
    &&& address.scope_id == read.2
    &&& address.flowinfo == 0
}

/// Reads an address with its port.
pub fn parse_socket_address(s: &[u8]) -> (address: Option<SocketAddress>)
    ensures
        match address {
            Some(address) => socket_address_of(s@) is Some && is_read(
                address,
                socket_address_of(s@)->0,
            ),
            None => socket_address_of(s@) is None,
        },
{
    let size: usize = s.len();
    if size > 0 && s[0] == 91 {
        let close: usize = find(s, 93);
        proof {
            lemma_place_bounds(s@, 93, 1);
        }
        if close == 0 || size - close < 2 || s[close + 1] != 58 {
            return None;
        }
        let inside = vstd::slice::slice_subrange(s, 1, close);
        let mark: usize = find(inside, 37);
        let marked = mark < inside.len();
        let zone: u64 = if marked {
            let text = vstd::slice::slice_subrange(inside, mark + 1, inside.len());
            assert(text@ =~= inside@.skip(mark + 1));
            match parse_plain_number(text, 0xffff_ffff) {
                Some(zone) => zone,
                None => return None,
            }
        } else {
            0
        };
        let text = vstd::slice::slice_subrange(inside, 0, mark);
        assert(marked ==> text@ =~= inside@.take(mark as int));
        assert(!marked ==> text@ =~= inside@);
        let octets = match parse_ipv6(text) {
            Some(octets) => octets,
            None => return None,
        };
        let digits = vstd::slice::slice_subrange(s, close + 2, size);
        assert(digits@ =~= s@.skip(close + 2));
        match parse_plain_number(digits, 0xffff) {
            Some(port) => Some(
                SocketAddress {
                    ip: IpAddress::V6(octets),
                    port: port as u16,
                    flowinfo: 0,
                    scope_id: zone as u32,
                },
            ),
            None => None,
        }
    } else {
        let colon: usize = find(s, 58);
        if colon == size {
            return None;
        }
        let text = vstd::slice::slice_subrange(s, 0, colon);
        assert(text@ =~= s@.take(colon as int));
        let octets = match parse_ipv4(text) {
            Some(octets) => octets,
            None => return None,
        };
        let digits = vstd::slice::slice_subrange(s, colon + 1, size);
        assert(digits@ =~= s@.skip(colon + 1));
        match parse_plain_number(digits, 0xffff) {
            Some(port) => Some(
                SocketAddress {
                    ip: IpAddress::V4(octets),
                    port: port as u16,
                    flowinfo: 0,
                    scope_id: 0,
                },
            ),
            None => None,
        }
    }
}

/// The resolver that `s` names: an address with its port, or an address alone,
/// where the port is that of DNS.
pub open spec fn resolver_of(s: Seq<u8>) -> Option<(Seq<u8>, u16, u32)> {
    match address_of(s) {
        Some(octets) => Some((octets, 53, 0)),
        None => socket_address_of(s),
    }
}

/// Reads the address of a resolver.
pub fn parse_resolver(s: &[u8]) -> (address: Option<SocketAddress>)
    ensures
        match address {
            Some(address) => resolver_of(s@) is Some && is_read(address, resolver_of(s@)->0),
            None => resolver_of(s@) is None,
        },
{
    match parse_address(s) {
        Some(ip) => Some(SocketAddress::new(ip, 53)),
        None => parse_socket_address(s),
    }
}

/// A number reads back from its decimal text.
pub proof fn lemma_decimal_reads_back(n: nat)
    ensures
        decimal(n).len() > 0,
        all_digits(decimal(n)),
        digits_value(decimal(n)) == n,
    decreases n,
{
    if n < 10 {
        assert(decimal(n).drop_last() =~= Seq::empty());
        assert(digits_value(Seq::empty()) == 0);
    } else {
        lemma_decimal_reads_back(n / 10);
        assert(decimal(n).drop_last() =~= decimal(n / 10));
    }
}

/// An address with its port reads back from its text.
pub proof fn law_endpoint_text_round_trip(target: SocketAddress)
    ensures
        socket_address_of(authority_text(target)) == Some(
            (octets_of(target.ip), target.port, 0u32),
        ),
{
    let s = authority_text(target);
    let ip = ip_text(target.ip);
    let port = decimal(target.port as nat);
    lemma_decimal_reads_back(target.port as nat);
    lemma_address_text_octets(target.ip);
    match target.ip {
        IpAddress::V4(octets) => {
            lemma_ipv4_reads(octets@);
            let colon = ip.len() as int;
            assert forall|i: int| 0 <= i < colon implies #[trigger] s[i] != 58 by {
                assert(s[i] == ip[i]);
            }
            lemma_place_is(s, 58, 0, colon);
            assert(s.take(colon) =~= ip);
            assert(s.skip(colon + 1) =~= port);
            assert(s[0] == ip[0]);
        },
        IpAddress::V6(octets) => {
            lemma_ipv6_reads(octets@);
            let close = 1int + ip.len();
            assert forall|i: int| 0 <= i < close implies #[trigger] s[i] != 93 by {
                if i > 0 {
                    assert(s[i] == ip[i - 1]);
                }
            }
            lemma_place_is(s, 93, 0, close);
            let inside = s.subrange(1, close);
            assert(inside =~= ip);
            assert forall|i: int| 0 <= i < inside.len() implies #[trigger] inside[i] != 37 by {
                assert(inside[i] == ip[i]);
            }
            lemma_place_is(inside, 37, 0, inside.len() as int);
            assert(s.skip(close + 2) =~= port);
        },
    }
}

/// A resolver is an address on port 53 where only the address is given, and
/// otherwise an address with its port.
pub proof fn law_resolver_port_is_that_of_dns(s: Seq<u8>)
    ensures
        address_of(s) is Some ==> resolver_of(s) is Some && resolver_of(s).unwrap().0 == address_of(
            s,
        )->0 && resolver_of(s).unwrap().1 == 53,
        address_of(s) is None ==> resolver_of(s) == socket_address_of(s),
{
}

/// An IPv4 address with its port is the address, a colon and the port in decimal
/// digits, which is at most 65535.
pub proof fn law_port_follows_the_colon(ip: Seq<u8>, port: Seq<u8>)
    requires
        ip.len() > 0,
        ip[0] != 91,
        forall|i: int| 0 <= i < ip.len() ==> #[trigger] ip[i] != 58,
    ensures
        ({
            let text = ip.push(58) + port;
            &&& socket_address_of(text) is Some <==> {
                &&& ipv4_of(ip) is Some
                &&& port.len() > 0
                &&& all_digits(port)
                &&& digits_value(port) <= 65_535
            }
            &&& socket_address_of(text) is Some ==> {
                let read = socket_address_of(text)->0;
                &&& read.0 == ipv4_of(ip)->0
                &&& read.1 == digits_value(port)
                &&& read.2 == 0
            }
        }),
        socket_address_of(ip) is None,
{
    let text = ip.push(58) + port;
    let n = ip.len() as int;
    assert(text[0] == ip[0]);
    assert forall|i: int| 0 <= i < n implies #[trigger] text[i] != 58 by {
        assert(text[i] == ip[i]);
    }
    assert(text[n] == 58);
    lemma_place_is(text, 58, 0, n);
    lemma_place_is(ip, 58, 0, n);
    assert(text.take(n) =~= ip);
    assert(text.skip(n + 1) =~= port);
}

/// What was read of an address is the address: its octets, its port and its zone.
pub proof fn law_read_address_is_complete(address: SocketAddress, read: (Seq<u8>, u16, u32))
    ensures
        is_read(address, read) ==> address.port == read.1 && address.scope_id == read.2
            && address.flowinfo == 0 && match address.ip {
            crate::net::IpAddress::V4(octets) => octets@ == read.0,
            crate::net::IpAddress::V6(octets) => octets@ == read.0,
        },
{
}

} // verus!
