//! A proxy for measurements: what it reads from a client, and what it answers.
//!
//! The proxy collects octets and asks after each read what they come to.

use crate::address_text::{lemma_address_text_octets, lemma_place_is, octets_of, place_of};
use crate::endpoint_text::{
    find, is_read, law_endpoint_text_round_trip, lemma_decimal_reads_back, parse_socket_address,
    socket_address_of,
};
use crate::net::SocketAddress;
use crate::proxy_proto::http::{
    authority_text, authorization_header, authorization_word, base64_standard, basic_pair,
    connect_request, connect_word, encode_base64, is_utf8, line_break, version_and_host,
};
use crate::proxy_proto::socks::{
    address_bytes, address_of, auth_request, command_request, greeting, law_address_round_trip,
    parse_socks_address,
};
use crate::proxy_proto::handshake::{HandshakeModel, State};
use crate::proxy_proto::{
    AddressModel, Command, Credentials, Error, Protocol, SocksAddress, sendable,
};
use crate::text::{decimal, ip_text, push_all};
use vstd::prelude::*;

verus! {

/// The most octets of a request for a tunnel.
pub const MAX_HTTP_HEADERS: usize = 8192;

/// What the octets so far come to.
#[derive(Debug, PartialEq, Eq)]
pub enum Step<T> {
    /// So many more octets are to be read.
    Need(usize),
    /// What came is not what the protocol has here.
    Refused(&'static str),
    Done(T),
}

/// Whether the first `count` octets of `received` name `method`.
pub open spec fn offers(received: Seq<u8>, method: u8, count: int) -> bool {
    exists|i: int| 2 <= i < 2 + count && #[trigger] received[i] == method
}

/// Reads the greeting of a SOCKS5 client: whether it offers the method that is
/// wanted here, a password if there are credentials and nothing otherwise.
pub fn read_greeting(received: &[u8], authenticated: bool) -> (step: Step<bool>)
    ensures
        match step {
            Step::Need(count) => {
                let all = if received@.len() < 2 {
                    2
                } else {
                    2 + received@[1]
                };
                &&& count == all - received@.len()
                &&& count > 0
                &&& received@.len() >= 2 ==> received@[0] == 5
            },
            Step::Refused(reason) => {
                &&& received@.len() >= 2
                &&& received@[0] != 5
                &&& reason == "invalid SOCKS5 greeting"
            },
            Step::Done(offered) => {
                &&& received@.len() >= 2 + received@[1]
                &&& received@[0] == 5
                &&& offered == offers(
                    received@,
                    if authenticated {
                        2
                    } else {
                        0
                    },
                    received@[1] as int,
                )
            },
        },
{
    if received.len() < 2 {
        return Step::Need(2 - received.len());
    }
    if received[0] != 5 {
        return Step::Refused("invalid SOCKS5 greeting");
    }
    let end: usize = 2 + received[1] as usize;
    if received.len() < end {
        return Step::Need(end - received.len());
    }
    let method: u8 = if authenticated {
        2
    } else {
        0
    };
    let mut i: usize = 2;
    while i < end
        invariant
            2 <= i <= end <= received@.len(),
            end == 2 + received@[1],
            received@[0] == 5,
            method == if authenticated {
                2u8
            } else {
                0u8
            },
            forall|j: int| 2 <= j < i ==> #[trigger] received@[j] != method,
        decreases end - i,
    {
        if received[i] == method {
            assert(offers(received@, method, received@[1] as int));
            return Step::Done(true);
        }
        i = i + 1;
    }
    Step::Done(false)
}

/// The answer to a greeting.
pub open spec fn method_answer(offered: bool, authenticated: bool) -> Seq<u8> {
    if !offered {
        seq![5u8, 0xffu8]
    } else if authenticated {
        seq![5u8, 2u8]
    } else {
        seq![5u8, 0u8]
    }
}

#[must_use]
pub fn answer_greeting(offered: bool, authenticated: bool) -> (answer: [u8; 2])
    ensures
        answer@ == method_answer(offered, authenticated),
{
    let answer: [u8; 2] = [
        5,
        if !offered {
            0xff
        } else if authenticated {
            2
        } else {
            0
        },
    ];
    assert(answer@ =~= method_answer(offered, authenticated));
    answer
}

/// Where the user name of a request to authenticate ends, and where the request
/// does, as far as its lengths are there.
pub open spec fn auth_end(received: Seq<u8>) -> int {
    if received.len() < 2 {
        2
    } else if received.len() < received[1] + 3 {
        received[1] + 3
    } else {
        received[1] + 3 + received[2 + received[1] as int]
    }
}

/// Reads a user name and a password, and whether they are the expected ones.
pub fn read_auth(received: &[u8], username: &[u8], password: &[u8]) -> (step: Step<bool>)
    ensures
        match step {
            Step::Need(count) => {
                &&& count > 0
                &&& count == auth_end(received@) - received@.len()
                &&& received@.len() >= 2 ==> received@[0] == 1
            },
            Step::Refused(reason) => {
                &&& received@.len() >= 2
                &&& received@[0] != 1
                &&& reason == "invalid SOCKS5 auth version"
            },
            Step::Done(accepted) => {
                let name_end = 2 + received@[1];
                &&& received@.len() >= auth_end(received@)
                &&& received@[0] == 1
                &&& accepted == (received@.subrange(2, name_end) == username@
                    && received@.subrange(name_end + 1, auth_end(received@)) == password@)
            },
        },
{
    if received.len() < 2 {
        return Step::Need(2 - received.len());
    }
    if received[0] != 1 {
        return Step::Refused("invalid SOCKS5 auth version");
    }
    let name_end: usize = 2 + received[1] as usize;
    if received.len() < name_end + 1 {
        return Step::Need(name_end + 1 - received.len());
    }
    let end: usize = name_end + 1 + received[name_end] as usize;
    if received.len() < end {
        return Step::Need(end - received.len());
    }
    let name = vstd::slice::slice_subrange(received, 2, name_end);
    let secret = vstd::slice::slice_subrange(received, name_end + 1, end);
    Step::Done(crate::bytes::equal(name, username) && crate::bytes::equal(secret, password))
}

/// The answer to a user name and a password.
#[must_use]
pub fn answer_auth(accepted: bool) -> (answer: [u8; 2])
    ensures
        answer@ == seq![
            1u8,
            if accepted {
                0u8
            } else {
                1u8
            },
        ],
{
    let answer: [u8; 2] = [
        1,
        if accepted {
            0
        } else {
            1
        },
    ];
    assert(answer@ =~= seq![
        1u8,
        if accepted {
            0u8
        } else {
            1u8
        },
    ]);
    answer
}

/// Where a request to connect ends, as far as its lengths are there.
pub open spec fn target_end(received: Seq<u8>) -> int {
    if received.len() < 4 {
        4
    } else if received[3] == 1 {
        10
    } else if received[3] == 4 {
        22
    } else if received.len() < 5 {
        5
    } else {
        7 + received[4]
    }
}

/// Why a request to connect is refused, if it is.
pub open spec fn target_refusal(received: Seq<u8>) -> Option<&'static str> {
    if received.len() < 4 {
        None
    } else if received[0] != 5 || received[1] != 1 || received[2] != 0 {
        Some("invalid SOCKS5 CONNECT request")
    } else if received[3] != 1 && received[3] != 3 && received[3] != 4 {
        Some("unsupported SOCKS5 address type")
    } else if received[3] == 3 && received.len() >= 5 && received.len() >= 5 + received[4]
        && !vstd::utf8::valid_utf8(received.subrange(5, 5 + received[4])) {
        Some("SOCKS5 host name is not text")
    } else {
        None
    }
}

/// Reads the target that a SOCKS5 client asks for.
pub fn read_socks_target(received: &[u8]) -> (step: Step<SocksAddress>)
    ensures
        match step {
            Step::Need(count) => {
                &&& target_refusal(received@) is None
                &&& count > 0
                &&& count == target_end(received@) - received@.len()
            },
            Step::Refused(reason) => target_refusal(received@) == Some(reason),
            Step::Done(target) => {
                &&& target_refusal(received@) is None
                &&& received@.len() >= target_end(received@)
                &&& address_of(received@.subrange(3, target_end(received@))) == Some(target@)
            },
        },
{
    if received.len() < 4 {
        return Step::Need(4 - received.len());
    }
    if received[0] != 5 || received[1] != 1 || received[2] != 0 {
        return Step::Refused("invalid SOCKS5 CONNECT request");
    }
    let end: usize = match received[3] {
        1 => 10,
        4 => 22,
        3 => {
            if received.len() < 5 {
                return Step::Need(1);
            }
            let name_end: usize = 5 + received[4] as usize;
            if received.len() >= name_end && !is_utf8(
                vstd::slice::slice_subrange(received, 5, name_end),
            ) {
                return Step::Refused("SOCKS5 host name is not text");
            }
            name_end + 2
        },
        _ => return Step::Refused("unsupported SOCKS5 address type"),
    };
    if received.len() < end {
        return Step::Need(end - received.len());
    }
    let address = vstd::slice::slice_subrange(received, 3, end);
    assert(address@[0] == received@[3]);
    if received[3] == 3 {
        assert(address@[1] == received@[4]);
    }
    match parse_socks_address(address) {
        Ok(target) => Step::Done(target),
        Err(_) => Step::Refused("unsupported SOCKS5 address type"),
    }
}

/// The answer to a request to connect.
pub open spec fn connect_answer(connected: bool) -> Seq<u8> {
    seq![
        5u8,
        if connected {
            0u8
        } else {
            5u8
        },
        0u8,
        1u8,
        0u8,
        0u8,
        0u8,
        0u8,
        0u8,
        0u8,
    ]
}

#[must_use]
pub fn answer_connect(connected: bool) -> (answer: [u8; 10])
    ensures
        answer@ == connect_answer(connected),
{
    let answer: [u8; 10] = [
        5,
        if connected {
            0
        } else {
            5
        },
        0,
        1,
        0,
        0,
        0,
        0,
        0,
        0,
    ];
    assert(answer@ =~= connect_answer(connected));
    answer
}

/// How many octets the white space at `at` has, and nothing if there is none.
pub open spec fn space_at(s: Seq<u8>, at: int) -> int {
    if at < 0 || at >= s.len() {
        0
    } else if 9 <= s[at] <= 13 || s[at] == 32 {
        1
    } else if at + 2 <= s.len() && s[at] == 0xc2 && (s[at + 1] == 0x85 || s[at + 1] == 0xa0) {
        2
    } else if at + 3 <= s.len() && wide_space(s[at], s[at + 1], s[at + 2]) {
        3
    } else {
        0
    }
}

/// The white space of three octets.
pub open spec fn wide_space(a: u8, b: u8, c: u8) -> bool {
    ||| a == 0xe1 && b == 0x9a && c == 0x80
    ||| a == 0xe2 && b == 0x80 && (0x80 <= c <= 0x8a || c == 0xa8 || c == 0xa9 || c == 0xaf)
    ||| a == 0xe2 && b == 0x81 && c == 0x9f
    ||| a == 0xe3 && b == 0x80 && c == 0x80
}

fn space_len(s: &[u8], at: usize) -> (length: usize)
    requires
        at <= s@.len(),
    ensures
        length == space_at(s@, at as int),
        at + length <= s@.len(),
{
    let left: usize = s.len() - at;
    if left == 0 {
        return 0;
    }
    let a: u8 = s[at];
    if (9 <= a && a <= 13) || a == 32 {
        return 1;
    }
    if left >= 2 && a == 0xc2 && (s[at + 1] == 0x85 || s[at + 1] == 0xa0) {
        return 2;
    }
    if left >= 3 {
        let b: u8 = s[at + 1];
        let c: u8 = s[at + 2];
        if (a == 0xe1 && b == 0x9a && c == 0x80) || (a == 0xe2 && b == 0x80 && ((0x80 <= c && c
            <= 0x8a) || c == 0xa8 || c == 0xa9 || c == 0xaf)) || (a == 0xe2 && b == 0x81 && c
            == 0x9f) || (a == 0xe3 && b == 0x80 && c == 0x80) {
            return 3;
        }
    }
    0
}

/// The first place from `at` on that is not white space.
pub open spec fn past_space(s: Seq<u8>, at: int) -> int
    decreases s.len() - at,
{
    if space_at(s, at) > 0 {
        past_space(s, at + space_at(s, at))
    } else {
        at
    }
}

/// The first place from `at` on that is white space, or the end.
pub open spec fn word_end(s: Seq<u8>, at: int) -> int
    decreases s.len() - at,
{
    if 0 <= at < s.len() && space_at(s, at) == 0 {
        word_end(s, at + 1)
    } else {
        at
    }
}

fn skip_space(s: &[u8], at: usize) -> (end: usize)
    requires
        at <= s@.len(),
    ensures
        end == past_space(s@, at as int),
        at <= end <= s@.len(),
{
    let size: usize = s.len();
    let mut i: usize = at;
    let mut length: usize = space_len(s, i);
    while length > 0
        invariant
            at <= i,
            size == s@.len(),
            i + length <= size,
            length == space_at(s@, i as int),
            past_space(s@, i as int) == past_space(s@, at as int),
        decreases s@.len() - i,
    {
        i = i + length;
        length = space_len(s, i);
    }
    i
}

fn skip_word(s: &[u8], at: usize) -> (end: usize)
    requires
        at <= s@.len(),
    ensures
        end == word_end(s@, at as int),
        at <= end <= s@.len(),
{
    let mut i: usize = at;
    while i < s.len() && space_len(s, i) == 0
        invariant
            at <= i <= s@.len(),
            word_end(s@, i as int) == word_end(s@, at as int),
        decreases s@.len() - i,
    {
        i = i + 1;
    }
    i
}

/// The first place from `at` on where a line breaks, or the end.
pub open spec fn break_place(s: Seq<u8>, at: int) -> int
    decreases s.len() - at,
{
    if at < 0 || at >= s.len() {
        at
    } else if at + 2 <= s.len() && s[at] == 13 && s[at + 1] == 10 {
        at
    } else {
        break_place(s, at + 1)
    }
}

/// A line breaks no earlier than where it starts.
pub proof fn lemma_break_bounds(s: Seq<u8>, at: int)
    requires
        0 <= at <= s.len(),
    ensures
        at <= break_place(s, at) <= s.len(),
    decreases s.len() - at,
{
    if at < s.len() && !(at + 2 <= s.len() && s[at] == 13 && s[at + 1] == 10) {
        lemma_break_bounds(s, at + 1);
    }
}

fn find_break(s: &[u8], at: usize) -> (end: usize)
    requires
        at <= s@.len(),
    ensures
        end == break_place(s@, at as int),
        at <= end <= s@.len(),
{
    let mut i: usize = at;
    while i < s.len() && !(s.len() - i >= 2 && s[i] == 13 && s[i + 1] == 10)
        invariant
            at <= i <= s@.len(),
            break_place(s@, i as int) == break_place(s@, at as int),
        decreases s@.len() - i,
    {
        i = i + 1;
    }
    i
}

/// Whether `request` ends with an empty line.
pub open spec fn ends_empty(request: Seq<u8>) -> bool {
    let size = request.len();
    &&& size >= 4
    &&& request[size - 4] == 13
    &&& request[size - 3] == 10
    &&& request[size - 2] == 13
    &&& request[size - 1] == 10
}

/// Whether a request for a tunnel is there as a whole. It is read octet by
/// octet, so that nothing of what follows is taken.
pub fn request_step(request: &[u8]) -> (step: Step<()>)
    ensures
        match step {
            Step::Need(count) => {
                &&& count == 1
                &&& !ends_empty(request@)
                &&& request@.len() != MAX_HTTP_HEADERS
            },
            Step::Refused(reason) => {
                &&& !ends_empty(request@)
                &&& request@.len() == MAX_HTTP_HEADERS
                &&& reason == "HTTP CONNECT request headers are too large"
            },
            Step::Done(()) => ends_empty(request@),
        },
{
    let size: usize = request.len();
    if size >= 4 && request[size - 4] == 13 && request[size - 3] == 10 && request[size - 2] == 13
        && request[size - 1] == 10 {
        return Step::Done(());
    }
    if size == MAX_HTTP_HEADERS {
        return Step::Refused("HTTP CONNECT request headers are too large");
    }
    Step::Need(1)
}

/// What becomes of a request for a tunnel.
#[derive(Debug, PartialEq, Eq)]
pub enum Tunnel {
    Refused(&'static str),
    /// The credentials are missing or wrong.
    Unauthorized,
    Open(SocketAddress),
}

/// An octet with ASCII letters in lower case.
pub open spec fn lowered(octet: u8) -> u8 {
    if 65 <= octet <= 90 {
        (octet + 32) as u8
    } else {
        octet
    }
}

/// The name of the header that authorizes, in lower case.
pub open spec fn authorization_name() -> Seq<u8> {
    seq![
        112u8,
        114u8,
        111u8,
        120u8,
        121u8,
        45u8,
        97u8,
        117u8,
        116u8,
        104u8,
        111u8,
        114u8,
        105u8,
        122u8,
        97u8,
        116u8,
        105u8,
        111u8,
        110u8,
    ]
}

/// Whether `name` is that header, in whatever case.
pub open spec fn names_authorization(name: Seq<u8>) -> bool {
    name.map_values(|octet: u8| lowered(octet)) == authorization_name()
}

/// Whether `value` is `expected` with nothing but white space around it.
pub open spec fn holds_only(value: Seq<u8>, expected: Seq<u8>) -> bool {
    let start = past_space(value, 0);
    &&& start + expected.len() <= value.len()
    &&& value.subrange(start, start + expected.len()) == expected
    &&& past_space(value, start + expected.len()) == value.len()
}

/// Whether a line is the header that authorizes, with the expected value.
pub open spec fn authorizes(line: Seq<u8>, expected: Seq<u8>) -> bool {
    let colon = place_of(line, 58, 0);
    colon < line.len() && names_authorization(line.take(colon)) && holds_only(
        line.skip(colon + 1),
        expected,
    )
}

/// Whether a line from `at` on authorizes.
pub open spec fn authorized_from(request: Seq<u8>, at: int, expected: Seq<u8>) -> bool
    decreases request.len() - at + 2,
{
    if at < 0 || at >= request.len() {
        false
    } else {
        proof {
            lemma_break_bounds(request, at);
        }
        let end = break_place(request, at);
        authorizes(request.subrange(at, end), expected) || authorized_from(
            request,
            end + 2,
            expected,
        )
    }
}

/// The value of the header that authorizes.
pub open spec fn authorization_value(encoded: Seq<u8>) -> Seq<u8> {
    seq![66u8, 97u8, 115u8, 105u8, 99u8, 32u8] + encoded
}

/// What a request asks for, before it is authorized: the word `CONNECT`, and the
/// address and the port behind it.
pub open spec fn asked_target(request: Seq<u8>) -> Result<(Seq<u8>, u16, u32), &'static str> {
    let line = request.take(break_place(request, 0));
    let method_at = past_space(line, 0);
    let method_end = word_end(line, method_at);
    let target_at = past_space(line, method_end);
    let target_end = word_end(line, target_at);
    if !vstd::utf8::valid_utf8(request) {
        Err("HTTP CONNECT request is not text")
    } else if line.subrange(method_at, method_end) != seq![
        67u8,
        79u8,
        78u8,
        78u8,
        69u8,
        67u8,
        84u8,
    ] {
        Err("expected HTTP CONNECT")
    } else if target_at == target_end {
        Err("missing CONNECT authority")
    } else {
        match socket_address_of(line.subrange(target_at, target_end)) {
            Some(read) => Ok(read),
            None => Err("invalid CONNECT authority"),
        }
    }
}

/// Whether `tunnel` is what becomes of `request`, where the encoded credentials
/// are asked for if there are any.
pub open spec fn tunnel_of(tunnel: Tunnel, request: Seq<u8>, encoded: Option<Seq<u8>>) -> bool {
    match asked_target(request) {
        Err(reason) => tunnel == Tunnel::Refused(reason),
        Ok(read) => if encoded is Some && !authorized_from(
            request,
            break_place(request, 0) + 2,
            authorization_value(encoded->0),
        ) {
            tunnel is Unauthorized
        } else {
            tunnel is Open && is_read(tunnel->Open_0, read)
        },
    }
}

fn line_authorizes(line: &[u8], expected: &[u8]) -> (yes: bool)
    ensures
        yes == authorizes(line@, expected@),
{
    let name: [u8; 19] = [
        112,
        114,
        111,
        120,
        121,
        45,
        97,
        117,
        116,
        104,
        111,
        114,
        105,
        122,
        97,
        116,
        105,
        111,
        110,
    ];
    assert(name@ =~= authorization_name());
    let size: usize = line.len();
    let colon: usize = find(line, 58);
    if colon == size {
        return false;
    }
    let ghost lower = line@.take(colon as int).map_values(|octet: u8| lowered(octet));
    if colon != 19 {
        assert(lower.len() == colon);
        return false;
    }
    let mut i: usize = 0;
    while i < 19
        invariant
            i <= 19,
            colon == 19,
            size == line@.len(),
            colon < size,
            colon == place_of(line@, 58, 0),
            name@ == authorization_name(),
            lower == line@.take(colon as int).map_values(|octet: u8| lowered(octet)),
            forall|j: int| 0 <= j < i ==> lower[j] == name@[j],
        decreases 19 - i,
    {
        let octet: u8 = line[i];
        let small: u8 = if 65 <= octet && octet <= 90 {
            octet + 32
        } else {
            octet
        };
        assert(lower[i as int] == small);
        if small != name[i] {
            assert(lower[i as int] != authorization_name()[i as int]);
            return false;
        }
        i = i + 1;
    }
    assert(lower =~= name@);
    let value = vstd::slice::slice_subrange(line, colon + 1, size);
    assert(value@ =~= line@.skip(colon + 1));
    let start: usize = skip_space(value, 0);
    if value.len() - start < expected.len() {
        return false;
    }
    let end: usize = start + expected.len();
    crate::bytes::equal(vstd::slice::slice_subrange(value, start, end), expected) && skip_space(
        value,
        end,
    ) == value.len()
}

fn is_authorized(request: &[u8], start: usize, expected: &[u8]) -> (yes: bool)
    requires
        start <= request@.len() + 2,
        request@.len() <= usize::MAX - 2,
    ensures
        yes == authorized_from(request@, start as int, expected@),
{
    let mut at: usize = start;
    while at < request.len()
        invariant
            request@.len() <= usize::MAX - 2,
            authorized_from(request@, at as int, expected@) == authorized_from(
                request@,
                start as int,
                expected@,
            ),
        decreases request@.len() + 2 - at,
    {
        let end: usize = find_break(request, at);
        let line = vstd::slice::slice_subrange(request, at, end);
        if line_authorizes(line, expected) {
            return true;
        }
        at = end + 2;
    }
    false
}

/// Reads a request for a tunnel, where `encoded` is what the credentials are
/// encoded to if they are asked for.
pub fn read_tunnel_request_with(request: &[u8], encoded: Option<&[u8]>) -> (tunnel: Tunnel)
    requires
        request@.len() <= usize::MAX - 2,
    ensures
        tunnel_of(
            tunnel,
            request@,
            match encoded {
                Some(text) => Some(text@),
                None => None,
            },
        ),
{
    if !is_utf8(request) {
        return Tunnel::Refused("HTTP CONNECT request is not text");
    }
    let first: usize = find_break(request, 0);
    let line = vstd::slice::slice_subrange(request, 0, first);
    assert(line@ =~= request@.take(first as int));
    let method_at: usize = skip_space(line, 0);
    let method_end: usize = skip_word(line, method_at);
    let target_at: usize = skip_space(line, method_end);
    let target_end: usize = skip_word(line, target_at);
    let word: [u8; 7] = [67, 79, 78, 78, 69, 67, 84];
    assert(word@ =~= seq![67u8, 79u8, 78u8, 78u8, 69u8, 67u8, 84u8]);
    if !crate::bytes::equal(vstd::slice::slice_subrange(line, method_at, method_end), &word) {
        return Tunnel::Refused("expected HTTP CONNECT");
    }
    if target_at == target_end {
        return Tunnel::Refused("missing CONNECT authority");
    }
    let authority = vstd::slice::slice_subrange(line, target_at, target_end);
    let target = match parse_socket_address(authority) {
        Some(target) => target,
        None => return Tunnel::Refused("invalid CONNECT authority"),
    };
    if let Some(text) = encoded {
        let mut expected: Vec<u8> = Vec::new();
        push_all(&mut expected, &[66, 97, 115, 105, 99, 32]);
        push_all(&mut expected, text);
        assert(expected@ =~= authorization_value(text@));
        if !is_authorized(request, first + 2, expected.as_slice()) {
            return Tunnel::Unauthorized;
        }
    }
    Tunnel::Open(target)
}

/// What the credentials of a proxy are encoded to.
pub open spec fn encoded_credentials(credentials: Option<(&[u8], &[u8])>) -> Option<Seq<u8>> {
    match credentials {
        Some((username, password)) => Some(base64_standard(basic_pair(username@, password@))),
        None => None,
    }
}

/// Reads a request for a tunnel through a proxy with these credentials.
pub fn read_tunnel_request(
    request: &[u8],
    credentials: Option<(&[u8], &[u8])>,
) -> (tunnel: Tunnel)
    requires
        request@.len() <= usize::MAX - 2,
        credentials matches Some((username, password)) ==> username@.len() + password@.len()
            < usize::MAX / 4,
    ensures
        tunnel_of(tunnel, request@, encoded_credentials(credentials)),
{
    match credentials {
        Some((username, password)) => {
            let mut raw: Vec<u8> = Vec::new();
            push_all(&mut raw, username);
            raw.push(58);
            push_all(&mut raw, password);
            assert(raw@ =~= basic_pair(username@, password@));
            let encoded = encode_base64(raw.as_slice());
            read_tunnel_request_with(request, Some(encoded.as_slice()))
        },
        None => read_tunnel_request_with(request, None),
    }
}

/// The proxy understands the messages of a SOCKS5 client that has a password:
/// it reads the offer, the user name and the password, and the target.
pub proof fn law_socks_client_is_understood(
    username: Seq<u8>,
    password: Seq<u8>,
    target: SocketAddress,
)
    requires
        sendable(username),
        sendable(password),
    ensures
        ({
            let greeting = greeting(true);
            let auth = auth_request(username, password);
            let command = command_request(Command::Connect, target);
            &&& greeting.len() == 2 + greeting[1]
            &&& offers(greeting, 2, greeting[1] as int)
            &&& auth.len() == auth_end(auth)
            &&& auth.subrange(2, 2 + auth[1]) == username
            &&& auth.subrange(3 + auth[1], auth_end(auth)) == password
            &&& target_refusal(command) is None
            &&& command.len() == target_end(command)
            &&& address_of(command.subrange(3, target_end(command))) == Some(
                AddressModel::Socket(SocketAddress::spec_new(target.ip, target.port)),
            )
        }),
{
    let auth = auth_request(username, password);
    let command = command_request(Command::Connect, target);
    assert(greeting(true)[3] == 2 || greeting(true)[2] == 2);
    assert(auth[1] == username.len());
    assert(auth[2 + username.len() as int] == password.len());
    assert(auth.subrange(2, 2 + auth[1]) =~= username);
    assert(auth.subrange(3 + auth[1], auth_end(auth)) =~= password);
    assert(command.subrange(3, command.len() as int) =~= address_bytes(target));
    law_address_round_trip(target);
}

/// A handshake whose output was sent as a whole.
pub open spec fn all_sent(handshake: HandshakeModel) -> HandshakeModel {
    handshake.sent(handshake.output.len() as int)
}

/// The client of a SOCKS5 proxy understands its answers: a tunnel that is opened
/// completes the handshake, one that is not fails it, and so do credentials that
/// are turned down.
pub proof fn law_socks_answers_are_understood(
    target: SocketAddress,
    credentials: Option<Credentials>,
)
    ensures
        ({
            let start = HandshakeModel::start(
                Protocol::Socks5,
                Command::Connect,
                target,
                credentials,
            );
            let greeted = all_sent(start).received(method_answer(true, credentials is Some));
            let refused = all_sent(start).received(method_answer(false, credentials is Some));
            let accepted = all_sent(greeted.1).received(seq![1u8, 0u8]);
            let turned_down = all_sent(greeted.1).received(seq![1u8, 1u8]);
            let commanding = if credentials is Some {
                accepted.1
            } else {
                greeted.1
            };
            let opened = all_sent(commanding).received(connect_answer(true));
            let failed = all_sent(commanding).received(connect_answer(false));
            &&& greeted.0 == Ok::<int, Error>(2)
            &&& refused.0 == Err::<int, Error>(Error::UnsupportedSocksMethod(0xff))
            &&& credentials is Some ==> accepted.0 == Ok::<int, Error>(2)
            &&& credentials is Some ==> turned_down.0 == Err::<int, Error>(
                Error::SocksAuthenticationFailed,
            )
            &&& opened.0 == Ok::<int, Error>(10)
            &&& opened.1.state == State::Complete
            &&& failed.0 == Err::<int, Error>(Error::SocksCommandFailed(5))
        }),
{
}

/// Whether every octet is a visible ASCII character.
pub open spec fn visible(s: Seq<u8>) -> bool {
    forall|i: int| 0 <= i < s.len() ==> 33 <= #[trigger] s[i] <= 126
}

proof fn lemma_break_is(s: Seq<u8>, at: int, end: int)
    requires
        0 <= at <= end,
        end + 2 <= s.len(),
        forall|i: int| at <= i < end ==> #[trigger] s[i] != 13,
        s[end] == 13,
        s[end + 1] == 10,
    ensures
        break_place(s, at) == end,
    decreases end - at,
{
    if at < end {
        lemma_break_is(s, at + 1, end);
    }
}

proof fn lemma_word_is(s: Seq<u8>, at: int, end: int)
    requires
        0 <= at <= end < s.len(),
        forall|i: int| at <= i < end ==> 33 <= #[trigger] s[i] <= 126,
        s[end] == 32,
    ensures
        word_end(s, at) == end,
    decreases end - at,
{
    if at < end {
        lemma_word_is(s, at + 1, end);
    }
}

/// ASCII is text.
proof fn lemma_ascii_is_text(s: Seq<u8>)
    requires
        forall|i: int| 0 <= i < s.len() ==> #[trigger] s[i] < 128,
    ensures
        vstd::utf8::valid_utf8(s),
{
    assert(s.subrange(0, 0) =~= Seq::<u8>::empty());
    assert(vstd::utf8::partial_valid_utf8(s, 0));
    assert forall|i: int| 0 <= i < s.len() implies #[trigger]
        vstd::utf8::is_leading_byte_width_1(s[i]) by {
        assert(s[i] < 128);
    }
    vstd::utf8::partial_valid_utf8_extend_ascii_block(s, 0, s.len() as int);
    assert(s.subrange(0, s.len() as int) =~= s);
}

/// An address with its port has visible octets only.
proof fn lemma_authority_is_visible(target: SocketAddress)
    ensures
        authority_text(target).len() > 0,
        visible(authority_text(target)),
{
    lemma_address_text_octets(target.ip);
    lemma_decimal_reads_back(target.port as nat);
    let ip = ip_text(target.ip);
    let port = decimal(target.port as nat);
    let s = authority_text(target);
    let before = if target.ip is V4 {
        0int
    } else {
        1
    };
    let between = if target.ip is V4 {
        1int
    } else {
        2
    };
    assert forall|i: int| 0 <= i < s.len() implies 33 <= #[trigger] s[i] <= 126 by {
        if before <= i < before + ip.len() {
            assert(s[i] == ip[i - before]);
        } else if i >= before + ip.len() + between {
            assert(s[i] == port[i - before - ip.len() - between]);
        }
    }
}

/// The first line of a request, without its end.
#[verifier::opaque]
spec fn first_line(target: SocketAddress) -> Seq<u8> {
    connect_word() + authority_text(target) + version_and_host().take(9)
}

/// The second line of a request, without its end.
#[verifier::opaque]
spec fn second_line(target: SocketAddress) -> Seq<u8> {
    version_and_host().skip(11) + authority_text(target)
}

/// The third line of a request with credentials, without its end.
#[verifier::opaque]
spec fn third_line(encoded: Seq<u8>) -> Seq<u8> {
    authorization_word() + encoded
}

/// What stands behind the second line.
#[verifier::opaque]
spec fn later_lines(encoded: Option<Seq<u8>>) -> Seq<u8> {
    authorization_header(encoded) + line_break()
}

/// The first line names the word and the target.
proof fn lemma_first_line(target: SocketAddress)
    ensures
        ({
            let line = first_line(target);
            let end = 8 + authority_text(target).len();
            &&& past_space(line, 0) == 0
            &&& word_end(line, 0) == 7
            &&& past_space(line, 7) == 8
            &&& word_end(line, 8) == end
            &&& line.subrange(0, 7) == seq![67u8, 79u8, 78u8, 78u8, 69u8, 67u8, 84u8]
            &&& line.subrange(8, end as int) == authority_text(target)
            &&& forall|i: int| 0 <= i < line.len() ==> 32 <= #[trigger] line[i] <= 126
        }),
{
    reveal(first_line);
    let line = first_line(target);
    let authority = authority_text(target);
    let end = 8 + authority.len();
    let version = version_and_host().take(9);
    lemma_authority_is_visible(target);
    assert(line[0] == 67 && line[7] == 32 && line[end as int] == 32);
    assert(line[8] == authority[0]);
    lemma_word_is(line, 0, 7);
    assert(past_space(line, 8) == 8);
    assert forall|i: int| 8 <= i < end implies 33 <= #[trigger] line[i] <= 126 by {
        assert(line[i] == authority[i - 8]);
    }
    lemma_word_is(line, 8, end as int);
    assert(line.subrange(0, 7) =~= seq![67u8, 79u8, 78u8, 78u8, 69u8, 67u8, 84u8]);
    assert(line.subrange(8, end as int) =~= authority);
    assert forall|i: int| 0 <= i < line.len() implies 32 <= #[trigger] line[i] <= 126 by {
        if i >= end {
            assert(line[i] == version[i - end]);
        }
    }
}

/// The third line authorizes.
proof fn lemma_third_line(encoded: Seq<u8>)
    requires
        visible(encoded),
    ensures
        authorizes(third_line(encoded), authorization_value(encoded)),
        forall|i: int|
            0 <= i < third_line(encoded).len() ==> 32 <= #[trigger] third_line(encoded)[i] <= 126,
{
    reveal(third_line);
    let line = third_line(encoded);
    let value = line.skip(20);
    let expected = authorization_value(encoded);
    lemma_place_is(line, 58, 0, 19);
    assert(line.take(19).map_values(|octet: u8| lowered(octet)) =~= authorization_name());
    assert(value[0] == 32 && value[1] == 66);
    assert(past_space(value, 1) == 1);
    assert(value.subrange(1, 1int + expected.len()) =~= expected);
    assert(value.len() == 1 + expected.len());
    assert(past_space(value, value.len() as int) == value.len());
    assert forall|i: int| 0 <= i < line.len() implies 32 <= #[trigger] line[i] <= 126 by {
        if i >= 27 {
            assert(line[i] == encoded[i - 27]);
        }
    }
}

/// Whether every octet stands within a line.
spec fn within_line(s: Seq<u8>) -> bool {
    forall|i: int| 0 <= i < s.len() ==> 32 <= #[trigger] s[i] <= 126
}

/// Two lines are read one behind the other.
proof fn lemma_lines_read(first: Seq<u8>, second: Seq<u8>, later: Seq<u8>)
    requires
        within_line(first),
        within_line(second),
    ensures
        ({
            let request = first + line_break() + second + line_break() + later;
            let one = first.len() as int;
            let two = one + 2 + second.len();
            &&& break_place(request, 0) == one
            &&& request.take(one) == first
            &&& break_place(request, one + 2) == two
            &&& request.skip(two + 2) == later
            &&& two + 2 + later.len() == request.len()
        }),
{
    let request = first + line_break() + second + line_break() + later;
    let one = first.len() as int;
    let two = one + 2 + second.len();
    assert forall|i: int| 0 <= i < one implies #[trigger] request[i] != 13 by {
        assert(request[i] == first[i]);
    }
    assert(request[one] == 13 && request[one + 1] == 10);
    lemma_break_is(request, 0, one);
    assert(request.take(one) =~= first);
    assert forall|i: int| one + 2 <= i < two implies #[trigger] request[i] != 13 by {
        assert(request[i] == second[i - one - 2]);
    }
    assert(request[two] == 13 && request[two + 1] == 10);
    lemma_break_is(request, one + 2, two);
    assert(request.skip(two + 2) =~= later);
}

/// A line that authorizes is found where it stands.
proof fn lemma_credentials_read(request: Seq<u8>, at: int, line: Seq<u8>, expected: Seq<u8>)
    requires
        0 <= at <= request.len(),
        request.skip(at) == line + line_break() + line_break(),
        within_line(line),
        authorizes(line, expected),
    ensures
        authorized_from(request, at, expected),
{
    let rest = request.skip(at);
    let end = at + line.len();
    assert(rest.len() == line.len() + 4);
    assert(rest.len() == request.len() - at);
    assert forall|i: int| at <= i < end implies #[trigger] request[i] != 13 by {
        assert(request[i] == rest[i - at]);
        assert(rest[i - at] == line[i - at]);
    }
    assert(request[end] == rest[line.len() as int]);
    assert(request[end + 1] == rest[line.len() + 1int]);
    lemma_break_is(request, at, end);
    assert(request.subrange(at, end) =~= line) by {
        assert forall|i: int| 0 <= i < line.len() implies request.subrange(at, end)[i]
            == line[i] by {
            assert(request[at + i] == rest[i]);
        }
    }
}

/// A request is its lines.
proof fn lemma_request_is_lines(target: SocketAddress, encoded: Option<Seq<u8>>)
    ensures
        connect_request(target, encoded) == first_line(target) + line_break() + second_line(target)
            + line_break() + later_lines(encoded),
        within_line(second_line(target)),
{
    reveal(first_line);
    reveal(second_line);
    reveal(later_lines);
    lemma_authority_is_visible(target);
    let version = version_and_host();
    let second = second_line(target);
    assert(version =~= version.take(9) + line_break() + version.skip(11));
    assert(connect_request(target, encoded) =~= first_line(target) + line_break() + second
        + line_break() + later_lines(encoded));
    assert forall|i: int| 0 <= i < second.len() implies 32 <= #[trigger] second[i] <= 126 by {
        if i >= 6 {
            assert(second[i] == authority_text(target)[i - 6]);
        }
    }
}

/// A request of lines is ASCII, and ends with an empty line.
proof fn lemma_lines_are_text(first: Seq<u8>, second: Seq<u8>, later: Seq<u8>)
    requires
        within_line(first),
        within_line(second),
        forall|i: int| 0 <= i < later.len() ==> #[trigger] later[i] < 128,
        later == line_break() || ends_empty(later),
    ensures
        ({
            let request = first + line_break() + second + line_break() + later;
            vstd::utf8::valid_utf8(request) && ends_empty(request)
        }),
{
    let request = first + line_break() + second + line_break() + later;
    let one = first.len() as int;
    let two = one + 2 + second.len();
    assert forall|i: int| 0 <= i < request.len() implies #[trigger] request[i] < 128 by {
        if i < one {
            assert(request[i] == first[i]);
        } else if one + 2 <= i < two {
            assert(request[i] == second[i - one - 2]);
        } else if i >= two + 2 {
            assert(request[i] == later[i - two - 2]);
        }
    }
    lemma_ascii_is_text(request);
}

/// What is asked for is the second word of the first line.
proof fn lemma_target_asked(
    request: Seq<u8>,
    line: Seq<u8>,
    authority: Seq<u8>,
    read: (Seq<u8>, u16, u32),
)
    requires
        vstd::utf8::valid_utf8(request),
        request.take(break_place(request, 0)) == line,
        past_space(line, 0) == 0,
        word_end(line, 0) == 7,
        past_space(line, 7) == 8,
        word_end(line, 8) == 8 + authority.len(),
        line.subrange(0, 7) == seq![67u8, 79u8, 78u8, 78u8, 69u8, 67u8, 84u8],
        line.subrange(8, 8int + authority.len()) == authority,
        authority.len() > 0,
        socket_address_of(authority) == Some(read),
    ensures
        asked_target(request) == Ok::<(Seq<u8>, u16, u32), &'static str>(read),
{
}

/// A line that authorizes is found behind another one.
proof fn lemma_second_line_authorizes(
    first: Seq<u8>,
    second: Seq<u8>,
    third: Seq<u8>,
    expected: Seq<u8>,
)
    requires
        within_line(first),
        within_line(second),
        within_line(third),
        authorizes(third, expected),
    ensures
        ({
            let request = first + line_break() + second + line_break() + (third + line_break()
                + line_break());
            authorized_from(request, first.len() + 2int, expected)
        }),
{
    let later = third + line_break() + line_break();
    let request = first + line_break() + second + line_break() + later;
    let two = first.len() + 2int + second.len();
    lemma_lines_read(first, second, later);
    lemma_credentials_read(request, two + 2, third, expected);
    assert(authorized_from(request, two + 2, expected));
}

/// What follows the second line is text, and ends with an empty line.
proof fn lemma_later_lines(encoded: Option<Seq<u8>>)
    requires
        encoded is Some ==> visible(encoded->0),
    ensures
        ({
            let later = later_lines(encoded);
            &&& forall|i: int| 0 <= i < later.len() ==> #[trigger] later[i] < 128
            &&& later == line_break() || ends_empty(later)
            &&& encoded is Some ==> later == third_line(encoded->0) + line_break() + line_break()
        }),
{
    reveal(later_lines);
    let later = later_lines(encoded);
    match encoded {
        Some(text) => {
            reveal(third_line);
            lemma_third_line(text);
            let third = third_line(text);
            assert(later =~= third + line_break() + line_break());
            assert forall|i: int| 0 <= i < later.len() implies #[trigger] later[i] < 128 by {
                if i < third.len() {
                    assert(later[i] == third[i]);
                }
            }
        },
        None => {
            assert(later =~= line_break());
        },
    }
}

/// The proxy understands the request of an HTTP client: it is complete at its
/// end, it names the target, and its credentials are accepted, whatever visible
/// text they are encoded to.
pub proof fn law_http_client_is_understood(target: SocketAddress, encoded: Option<Seq<u8>>)
    requires
        encoded is Some ==> visible(encoded->0),
    ensures
        ({
            let request = connect_request(target, encoded);
            &&& ends_empty(request)
            &&& asked_target(request) == Ok::<(Seq<u8>, u16, u32), &'static str>(
                (octets_of(target.ip), target.port, 0u32),
            )
            &&& encoded is Some ==> authorized_from(
                request,
                break_place(request, 0) + 2,
                authorization_value(encoded->0),
            )
        }),
{
    let request = connect_request(target, encoded);
    let first = first_line(target);
    let second = second_line(target);
    let later = later_lines(encoded);
    lemma_request_is_lines(target, encoded);
    lemma_first_line(target);
    lemma_later_lines(encoded);
    lemma_lines_read(first, second, later);
    lemma_lines_are_text(first, second, later);
    lemma_authority_is_visible(target);
    law_endpoint_text_round_trip(target);
    lemma_target_asked(
        request,
        first,
        authority_text(target),
        (octets_of(target.ip), target.port, 0u32),
    );
    if encoded is Some {
        lemma_third_line(encoded->0);
        lemma_second_line_authorizes(
            first,
            second,
            third_line(encoded->0),
            authorization_value(encoded->0),
        );
    }
}

/// The proxy answers in version five: with the method that it wants if it was
/// offered and 255 otherwise, and with zero for a tunnel that is open and five
/// for one that is not.
pub proof fn law_answers_have_their_octets(authenticated: bool)
    ensures
        method_answer(false, authenticated) == seq![5u8, 255],
        method_answer(true, true) == seq![5u8, 2],
        method_answer(true, false) == seq![5u8, 0],
        connect_answer(true) == seq![5u8, 0, 0, 1, 0, 0, 0, 0, 0, 0],
        connect_answer(false) == seq![5u8, 5, 0, 1, 0, 0, 0, 0, 0, 0],
{
}

/// A method is offered exactly when it is among those that the greeting lists.
pub proof fn law_offer_is_among_the_methods(methods: Seq<u8>, method: u8)
    requires
        methods.len() <= 255,
    ensures
        offers(seq![5u8, methods.len() as u8] + methods, method, methods.len() as int)
            <==> methods.contains(method),
{
    let received = seq![5u8, methods.len() as u8] + methods;
    if methods.contains(method) {
        let i = choose|i: int| 0 <= i < methods.len() && methods[i] == method;
        assert(received[i + 2] == method);
    }
    if offers(received, method, methods.len() as int) {
        let i = choose|i: int| 2 <= i < 2 + methods.len() && #[trigger] received[i] == method;
        assert(methods[i - 2] == method);
    }
}

/// A request to connect ends behind an address of its type and its port, and one
/// to authenticate behind both of its texts.
pub proof fn law_requests_end_by_their_lengths(received: Seq<u8>)
    ensures
        received.len() >= 5 && received[3] == 1 ==> target_end(received) == 10,
        received.len() >= 5 && received[3] == 4 ==> target_end(received) == 22,
        received.len() >= 5 && received[3] == 3 ==> target_end(received) == 7 + received[4],
        received.len() >= 2 && received.len() >= 3 + received[1] ==> auth_end(received) == 3
            + received[1] + received[2 + received[1] as int],
{
}

/// Only a request in version five to connect, with an address of a known type,
/// is not refused.
pub proof fn law_only_connects_are_accepted(received: Seq<u8>)
    requires
        received.len() >= 4,
    ensures
        target_refusal(received) is None ==> {
            &&& received[0] == 5 && received[1] == 1 && received[2] == 0
            &&& received[3] == 1 || received[3] == 3 || received[3] == 4
        },
        received[0] == 5 && received[1] == 1 && received[2] == 0 && (received[3] == 1 || received[3]
            == 4) ==> target_refusal(received) is None,
{
}

/// A tunnel is opened only to the target that was asked for, and, where
/// credentials are wanted, only if a line behind the first gives them. A proxy
/// without credentials turns no proper request down.
pub proof fn law_tunnel_needs_its_credentials(
    tunnel: Tunnel,
    request: Seq<u8>,
    encoded: Option<Seq<u8>>,
)
    requires
        tunnel_of(tunnel, request, encoded),
    ensures
        tunnel is Refused <==> asked_target(request) is Err,
        tunnel is Open ==> asked_target(request) is Ok && is_read(
            tunnel->Open_0,
            asked_target(request)->Ok_0,
        ),
        encoded is None ==> !(tunnel is Unauthorized),
        encoded is Some && asked_target(request) is Ok ==> (tunnel is Open <==> authorized_from(
            request,
            break_place(request, 0) + 2,
            authorization_value(encoded->0),
        )),
{
}

/// The header that authorizes is named in any case, and its value is `Basic` and
/// the encoded credentials.
pub proof fn law_authorization_is_named(octet: u8, encoded: Seq<u8>)
    ensures
        'A' <= octet as char <= 'Z' ==> lowered(octet) == octet + 32,
        !('A' <= octet as char <= 'Z') ==> lowered(octet) == octet,
        authorization_name().map_values(|b: u8| b as char) == "proxy-authorization"@,
        authorization_value(encoded).take(6).map_values(|b: u8| b as char) == "Basic "@,
        authorization_value(encoded).skip(6) == encoded,
{
    reveal_strlit("proxy-authorization");
    reveal_strlit("Basic ");
    assert(authorization_name().map_values(|b: u8| b as char) =~= "proxy-authorization"@);
    assert(authorization_value(encoded).take(6).map_values(|b: u8| b as char) =~= "Basic "@);
    assert(authorization_value(encoded).skip(6) =~= encoded);
}

} // verus!
