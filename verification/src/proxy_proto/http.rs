//! HTTP CONNECT messages.

use super::{Credentials, Error};
use crate::net::{IpAddress, SocketAddress};
use crate::text::{decimal, field_end, ip_text, number, past_blanks};
use vstd::prelude::*;

verus! {

pub const MAX_HTTP_HEADER: usize = 8192;

/// `CONNECT` and the space behind it.
pub open spec fn connect_word() -> Seq<u8> {
    seq![67u8, 79u8, 78u8, 78u8, 69u8, 67u8, 84u8, 32u8]
}

/// What stands between the request target and the host.
pub open spec fn version_and_host() -> Seq<u8> {
    seq![
        32u8, 72u8, 84u8, 84u8, 80u8, 47u8, 49u8, 46u8, 49u8, 13u8, 10u8, 72u8, 111u8, 115u8, 116u8,
        58u8, 32u8,
    ]
}

/// The name of the authorization header.
pub open spec fn authorization_word() -> Seq<u8> {
    seq![
        80u8, 114u8, 111u8, 120u8, 121u8, 45u8, 65u8, 117u8, 116u8, 104u8, 111u8, 114u8, 105u8,
        122u8, 97u8, 116u8, 105u8, 111u8, 110u8, 58u8, 32u8, 66u8, 97u8, 115u8, 105u8, 99u8, 32u8,
    ]
}

/// The end of a line.
pub open spec fn line_break() -> Seq<u8> {
    seq![13u8, 10u8]
}

/// The address and the port as a request writes them: an IPv6 address stands in
/// brackets.
pub open spec fn authority_text(target: SocketAddress) -> Seq<u8> {
    if target.ip is V4 {
        ip_text(target.ip) + seq![58u8] + decimal(target.port as nat)
    } else {
        seq![91u8] + ip_text(target.ip) + seq![93u8, 58u8] + decimal(target.port as nat)
    }
}

/// The header with the encoded user name and password, if there is one.
pub open spec fn authorization_header(encoded: Option<Seq<u8>>) -> Seq<u8> {
    match encoded {
        Some(text) => authorization_word() + text + line_break(),
        None => Seq::empty(),
    }
}

/// The request for a tunnel to `target`.
pub open spec fn connect_request(target: SocketAddress, encoded: Option<Seq<u8>>) -> Seq<u8> {
    connect_word() + authority_text(target) + version_and_host() + authority_text(target)
        + line_break() + authorization_header(encoded) + line_break()
}

/// What the standard base64 alphabet with padding makes of `raw`.
pub uninterp spec fn base64_standard(raw: Seq<u8>) -> Seq<u8>;

/// Calls `base64::engine::general_purpose::STANDARD.encode`: the result depends
/// on the octets alone. The encoder gives up on input whose encoded length does
/// not fit in an address space, so the input is bounded.
#[verifier::external_body]
pub(crate) fn encode_base64(raw: &[u8]) -> (encoded: Vec<u8>)
    requires
        raw@.len() <= usize::MAX / 4,
    ensures
        encoded@ == base64_standard(raw@),
{
    base64::Engine::encode(&base64::engine::general_purpose::STANDARD, raw).into_bytes()
}

/// A user name and a password as they are encoded: with a colon between them.
pub open spec fn basic_pair(username: Seq<u8>, password: Seq<u8>) -> Seq<u8> {
    username + seq![58u8] + password
}

/// What the request carries of the credentials.
pub open spec fn encoded_pair(credentials: Option<Credentials>) -> Option<Seq<u8>> {
    match credentials {
        Some(held) => Some(base64_standard(basic_pair(held.name(), held.secret()))),
        None => None,
    }
}

fn push_authority(out: &mut Vec<u8>, target: SocketAddress)
    ensures
        final(out)@ == old(out)@ + authority_text(target),
{
    match target.ip {
        IpAddress::V4(_) => {
            crate::text::push_ip(out, target.ip);
            out.push(58);
        },
        IpAddress::V6(_) => {
            out.push(91);
            crate::text::push_ip(out, target.ip);
            out.push(93);
            out.push(58);
        },
    }
    crate::text::push_decimal(out, target.port as u64);
    assert(out@ =~= old(out)@ + authority_text(target));
}

/// Writes the request around an authorization that is already encoded.
#[must_use]
pub fn connect_request_with(target: SocketAddress, encoded: Option<&[u8]>) -> (request: Vec<u8>)
    ensures
        request@ == connect_request(
            target,
            match encoded {
                Some(text) => Some(text@),
                None => None,
            },
        ),
{
    let mut request: Vec<u8> = Vec::new();
    crate::text::push_all(&mut request, &[67, 79, 78, 78, 69, 67, 84, 32]);
    push_authority(&mut request, target);
    crate::text::push_all(
        &mut request,
        &[32, 72, 84, 84, 80, 47, 49, 46, 49, 13, 10, 72, 111, 115, 116, 58, 32],
    );
    push_authority(&mut request, target);
    crate::text::push_all(&mut request, &[13, 10]);
    let ghost head = connect_word() + authority_text(target) + version_and_host()
        + authority_text(target) + line_break();
    assert(request@ =~= head);
    if let Some(text) = encoded {
        crate::text::push_all(
            &mut request,
            &[
                80, 114, 111, 120, 121, 45, 65, 117, 116, 104, 111, 114, 105, 122, 97, 116, 105,
                111, 110, 58, 32, 66, 97, 115, 105, 99, 32,
            ],
        );
        crate::text::push_all(&mut request, text);
        crate::text::push_all(&mut request, &[13, 10]);
        assert(request@ =~= head + authorization_header(Some(text@)));
    } else {
        assert(request@ =~= head + authorization_header(None));
    }
    crate::text::push_all(&mut request, &[13, 10]);
    assert(request@ =~= connect_request(
        target,
        match encoded {
            Some(text) => Some(text@),
            None => None,
        },
    ));
    request
}

/// Writes the request for a tunnel, with the credentials if there are any.
#[must_use]
pub fn http_connect_request(
    target: SocketAddress,
    credentials: Option<&Credentials>,
) -> (request: Vec<u8>)
    ensures
        request@ == connect_request(
            target,
            encoded_pair(
                match credentials {
                    Some(held) => Some(*held),
                    None => None,
                },
            ),
        ),
{
    match credentials {
        Some(held) => {
            let mut raw: Vec<u8> = Vec::new();
            crate::text::push_all(&mut raw, held.username());
            raw.push(58);
            crate::text::push_all(&mut raw, held.password());
            assert(raw@ =~= basic_pair(held.name(), held.secret()));
            let mut encoded = encode_base64(raw.as_slice());
            super::wipe(&mut raw);
            let request = connect_request_with(target, Some(encoded.as_slice()));
            super::wipe(&mut encoded);
            request
        },
        None => connect_request_with(target, None),
    }
}

/// The end of the first empty line at or behind `at`.
pub open spec fn header_end(s: Seq<u8>, at: int) -> Option<int>
    decreases s.len() - at,
{
    if at < 0 || at + 4 > s.len() {
        None
    } else if s[at] == 13 && s[at + 1] == 10 && s[at + 2] == 13 && s[at + 3] == 10 {
        Some(at + 4)
    } else {
        header_end(s, at + 1)
    }
}

/// The end of the first line at or behind `at`, without its line break.
pub open spec fn line_end(s: Seq<u8>, at: int) -> int
    decreases s.len() - at,
{
    if at < 0 || at + 2 > s.len() || (s[at] == 13 && s[at + 1] == 10) {
        at
    } else {
        line_end(s, at + 1)
    }
}

/// Whether the field names HTTP/1.0 or HTTP/1.1.
pub open spec fn is_version(s: Seq<u8>) -> bool {
    &&& s.len() == 8
    &&& s.take(7) == seq![72u8, 84u8, 84u8, 80u8, 47u8, 49u8, 46u8]
    &&& s[7] == 48 || s[7] == 49
}

/// The status that a status line announces.
pub open spec fn status_of(line: Seq<u8>) -> Result<u16, Error> {
    let version_at = past_blanks(line, 0);
    let version_end = field_end(line, version_at);
    let status_at = past_blanks(line, version_end);
    let status_end = field_end(line, status_at);
    if !vstd::utf8::valid_utf8(line) {
        Err(Error::InvalidResponse("HTTP status encoding"))
    } else if !is_version(line.subrange(version_at, version_end)) {
        Err(Error::InvalidResponse("HTTP version"))
    } else {
        match number(line.subrange(status_at, status_end), 0xffff) {
            None => Err(Error::InvalidResponse("HTTP status")),
            Some(status) => Ok(status as u16),
        }
    }
}

/// What a response comes to: the length of its headers once they are there and
/// the proxy agrees, 0 as long as more is awaited, or why it failed.
pub open spec fn response_outcome(s: Seq<u8>) -> Result<int, Error> {
    match header_end(s, 0) {
        None => if s.len() >= MAX_HTTP_HEADER {
            Err(Error::HttpHeaderTooLarge)
        } else {
            Ok(0)
        },
        Some(end) => if end > MAX_HTTP_HEADER {
            Err(Error::HttpHeaderTooLarge)
        } else {
            match status_of(s.take(line_end(s, 0))) {
                Err(error) => Err(error),
                Ok(status) => if 200 <= status < 300 {
                    Ok(end)
                } else {
                    Err(Error::HttpConnectFailed(status))
                },
            }
        },
    }
}

/// Calls `std::str::from_utf8`, which succeeds exactly on valid UTF-8.
#[verifier::external_body]
pub(crate) fn is_utf8(bytes: &[u8]) -> (valid: bool)
    ensures
        valid == vstd::utf8::valid_utf8(bytes@),
{
    std::str::from_utf8(bytes).is_ok()
}

fn find_header_end(s: &[u8]) -> (end: Option<usize>)
    ensures
        match end {
            Some(end) => header_end(s@, 0) == Some(end as int) && 4 <= end <= s@.len(),
            None => header_end(s@, 0) is None,
        },
        end is Some ==> s@[end.unwrap() - 4] == 13 && s@[end.unwrap() - 3] == 10,
{
    let size: usize = s.len();
    let mut at: usize = 0;
    while at < size && size - at >= 4
        invariant
            at <= size == s@.len(),
            header_end(s@, at as int) == header_end(s@, 0),
        decreases size - at,
    {
        if s[at] == 13 && s[at + 1] == 10 && s[at + 2] == 13 && s[at + 3] == 10 {
            return Some(at + 4);
        }
        at = at + 1;
    }
    None
}

fn find_line_end(s: &[u8]) -> (end: usize)
    ensures
        end == line_end(s@, 0),
        end <= s@.len(),
{
    let size: usize = s.len();
    let mut at: usize = 0;
    while at < size && size - at >= 2 && !(s[at] == 13 && s[at + 1] == 10)
        invariant
            at <= size == s@.len(),
            line_end(s@, at as int) == line_end(s@, 0),
        decreases size - at,
    {
        at = at + 1;
    }
    at
}

fn parse_status(line: &[u8]) -> (result: Result<u16, Error>)
    ensures
        result == status_of(line@),
{
    if !is_utf8(line) {
        return Err(Error::InvalidResponse("HTTP status encoding"));
    }
    let version_at: usize = crate::text::skip_blanks(line, 0);
    let version_end: usize = crate::text::skip_field(line, version_at);
    let status_at: usize = crate::text::skip_blanks(line, version_end);
    let status_end: usize = crate::text::skip_field(line, status_at);
    let version = vstd::slice::slice_subrange(line, version_at, version_end);
    if version.len() != 8 {
        return Err(Error::InvalidResponse("HTTP version"));
    }
    let name = vstd::slice::slice_subrange(version, 0, 7);
    assert(name@ =~= version@.take(7));
    let expected: [u8; 7] = [72, 84, 84, 80, 47, 49, 46];
    assert(expected@ =~= seq![72u8, 84u8, 84u8, 80u8, 47u8, 49u8, 46u8]);
    if !crate::bytes::equal(name, &expected) || !(version[7] == 48 || version[7] == 49) {
        return Err(Error::InvalidResponse("HTTP version"));
    }
    let status = vstd::slice::slice_subrange(line, status_at, status_end);
    match crate::text::parse_number(status, 0xffff) {
        None => Err(Error::InvalidResponse("HTTP status")),
        Some(value) => Ok(value as u16),
    }
}

/// Reads a response as far as it has come.
pub fn read_response(input: &[u8]) -> (result: Result<usize, Error>)
    ensures
        match result {
            Ok(length) => response_outcome(input@) == Ok::<int, Error>(length as int) && length
                <= input@.len(),
            Err(error) => response_outcome(input@) == Err::<int, Error>(error),
        },
{
    let end = match find_header_end(input) {
        Some(end) => end,
        None => {
            if input.len() >= MAX_HTTP_HEADER {
                return Err(Error::HttpHeaderTooLarge);
            }
            return Ok(0);
        },
    };
    if end > MAX_HTTP_HEADER {
        return Err(Error::HttpHeaderTooLarge);
    }
    let stop: usize = find_line_end(input);
    let line = vstd::slice::slice_subrange(input, 0, stop);
    assert(line@ =~= input@.take(stop as int));
    match parse_status(line) {
        Err(error) => Err(error),
        Ok(status) => if 200 <= status && status < 300 {
            Ok(end)
        } else {
            Err(Error::HttpConnectFailed(status))
        },
    }
}

/// What comes behind the headers of an accepted response is left alone: whatever
/// stands in its place, the response comes to the same.
pub proof fn law_tail_is_preserved(response: Seq<u8>, tail: Seq<u8>)
    requires
        response_outcome(response) is Ok,
        response_outcome(response)->Ok_0 > 0,
    ensures
        response_outcome(response)->Ok_0 <= response.len(),
        response_outcome(response.take(response_outcome(response)->Ok_0) + tail)
            == response_outcome(response),
{
    let end = response_outcome(response)->Ok_0;
    lemma_header_within(response, 0);
    let other = response.take(end) + tail;
    lemma_header_stays(response, other, 0, end);
    assert(other.take(line_end(other, 0)) =~= response.take(line_end(response, 0)));
}

proof fn lemma_header_within(s: Seq<u8>, at: int)
    requires
        0 <= at,
        header_end(s, at) is Some,
    ensures
        at + 4 <= header_end(s, at).unwrap() <= s.len(),
    decreases s.len() - at,
{
    if !(s[at] == 13 && s[at + 1] == 10 && s[at + 2] == 13 && s[at + 3] == 10) {
        lemma_header_within(s, at + 1);
    }
}

/// The octets up to the end of the headers decide where the headers and their
/// first line end.
proof fn lemma_header_stays(s: Seq<u8>, other: Seq<u8>, at: int, end: int)
    requires
        0 <= at,
        header_end(s, at) == Some(end),
        end <= other.len(),
        forall|i: int| 0 <= i < end ==> s[i] == #[trigger] other[i],
    ensures
        header_end(other, at) == Some(end),
        line_end(other, at) == line_end(s, at),
        at <= line_end(s, at) <= end,
    decreases s.len() - at,
{
    lemma_header_within(s, at);
    assert(s[at] == other[at] && s[at + 1] == other[at + 1] && s[at + 2] == other[at + 2] && s[at
        + 3] == other[at + 3]);
    if !(s[at] == 13 && s[at + 1] == 10 && s[at + 2] == 13 && s[at + 3] == 10) {
        lemma_header_stays(s, other, at + 1, end);
    }
}

/// A tunnel stands exactly on a status of 200 to 299: of a response whose first
/// line is `HTTP/1.0` or `HTTP/1.1`, a space, three digits, and nothing more or a
/// blank and any text, and whose headers end in an empty line, the headers are taken
/// where the digits say so, and any other status is reported.
pub proof fn law_tunnel_stands_on_success_only(s: Seq<u8>, line: int, end: int)
    requires
        12 <= line <= end - 4,
        end <= s.len(),
        end <= 8192,
        forall|i: int| 0 <= i < line ==> !(#[trigger] s[i] == 13 && s[i + 1] == 10),
        s[line] == 13 && s[line + 1] == 10,
        forall|i: int|
            0 <= i < end - 4 ==> !(#[trigger] s[i] == 13 && s[i + 1] == 10 && s[i + 2] == 13 && s[i
                + 3] == 10),
        s[end - 4] == 13 && s[end - 3] == 10 && s[end - 2] == 13 && s[end - 1] == 10,
        vstd::utf8::valid_utf8(s.take(line)),
        s[0] == 72 && s[1] == 84 && s[2] == 84 && s[3] == 80 && s[4] == 47 && s[5] == 49 && s[6]
            == 46,
        s[7] == 48 || s[7] == 49,
        s[8] == 32,
        48 <= s[9] <= 57 && 48 <= s[10] <= 57 && 48 <= s[11] <= 57,
        line > 12 ==> s[12] == 32,
    ensures
        ({
            let status = 100 * (s[9] - 48) + 10 * (s[10] - 48) + (s[11] - 48);
            response_outcome(s) == if s[9] == 50 {
                Ok::<int, Error>(end)
            } else {
                Err::<int, Error>(Error::HttpConnectFailed(status as u16))
            }
        }),
{
    let text = s.take(line);
    lemma_header_found(s, 0, end);
    lemma_line_found(s, 0, line);
    assert(past_blanks(text, 0) == 0);
    lemma_field_found(text, 0, 8);
    assert(past_blanks(text, 8) == 9) by {
        assert(past_blanks(text, 9) == 9);
    }
    lemma_field_found(text, 9, 12);
    let digits = text.subrange(9, 12);
    assert(text.subrange(0, 8).take(7) =~= seq![72u8, 84u8, 84u8, 80u8, 47u8, 49u8, 46u8]);
    lemma_three_digits(digits);
}

proof fn lemma_header_found(s: Seq<u8>, at: int, end: int)
    requires
        0 <= at <= end - 4,
        end <= s.len(),
        forall|i: int|
            at <= i < end - 4 ==> !(#[trigger] s[i] == 13 && s[i + 1] == 10 && s[i + 2] == 13 && s[i
                + 3] == 10),
        s[end - 4] == 13 && s[end - 3] == 10 && s[end - 2] == 13 && s[end - 1] == 10,
    ensures
        header_end(s, at) == Some(end),
    decreases end - at,
{
    if at < end - 4 {
        assert(!(s[at] == 13 && s[at + 1] == 10 && s[at + 2] == 13 && s[at + 3] == 10));
        lemma_header_found(s, at + 1, end);
    }
}

proof fn lemma_line_found(s: Seq<u8>, at: int, line: int)
    requires
        0 <= at <= line,
        line + 2 <= s.len(),
        forall|i: int| at <= i < line ==> !(#[trigger] s[i] == 13 && s[i + 1] == 10),
        s[line] == 13 && s[line + 1] == 10,
    ensures
        line_end(s, at) == line,
    decreases line - at,
{
    if at < line {
        assert(!(s[at] == 13 && s[at + 1] == 10));
        lemma_line_found(s, at + 1, line);
    }
}

proof fn lemma_field_found(s: Seq<u8>, at: int, end: int)
    requires
        0 <= at <= end <= s.len(),
        forall|i: int|
            at <= i < end ==> #[trigger] s[i] != 32 && s[i] != 9 && s[i] != 10 && s[i] != 12 && s[i]
                != 13,
        end < s.len() ==> s[end] == 32,
    ensures
        field_end(s, at) == end,
    decreases end - at,
{
    if at < end {
        assert(s[at] != 32);
        lemma_field_found(s, at + 1, end);
    }
}

proof fn lemma_three_digits(s: Seq<u8>)
    requires
        s.len() == 3,
        forall|i: int| 0 <= i < 3 ==> 48 <= #[trigger] s[i] <= 57,
    ensures
        number(s, 0xffff) == Some(
            (100 * (s[0] - 48) + 10 * (s[1] - 48) + (s[2] - 48)) as nat,
        ),
{
    let two = s.drop_last();
    let one = two.drop_last();
    let none = one.drop_last();
    assert(two =~= seq![s[0], s[1]]);
    assert(one =~= seq![s[0]]);
    assert(none =~= Seq::empty());
    assert(crate::text::digits_value(none) == 0);
    assert(crate::text::digits_value(one) == (s[0] - 48) as nat);
    assert(crate::text::digits_value(two) == crate::text::digits_value(one) * 10 + (s[1] - 48));
    assert(crate::text::digits_value(s) == crate::text::digits_value(two) * 10 + (s[2] - 48));
    assert(crate::text::all_digits(s));
}

/// Headers that are not whole are awaited up to 8192 octets, and refused from there
/// on.
pub proof fn law_headers_are_awaited_up_to_their_limit(s: Seq<u8>)
    requires
        forall|i: int|
            0 <= i < s.len() - 3 ==> !(#[trigger] s[i] == 13 && s[i + 1] == 10 && s[i + 2] == 13
                && s[i + 3] == 10),
    ensures
        s.len() < 8192 ==> response_outcome(s) == Ok::<int, Error>(0),
        s.len() >= 8192 ==> response_outcome(s) == Err::<int, Error>(Error::HttpHeaderTooLarge),
{
    lemma_no_header(s, 0);
}

proof fn lemma_no_header(s: Seq<u8>, at: int)
    requires
        0 <= at,
        forall|i: int|
            at <= i < s.len() - 3 ==> !(#[trigger] s[i] == 13 && s[i + 1] == 10 && s[i + 2] == 13
                && s[i + 3] == 10),
    ensures
        header_end(s, at) is None,
    decreases s.len() - at,
{
    if at + 4 <= s.len() {
        assert(!(s[at] == 13 && s[at + 1] == 10 && s[at + 2] == 13 && s[at + 3] == 10));
        lemma_no_header(s, at + 1);
    }
}

/// The request names the target twice, asks for version 1.1, carries the encoded
/// credentials exactly where there are any, and ends in an empty line.
pub proof fn law_request_has_its_form(target: SocketAddress, encoded: Option<Seq<u8>>)
    ensures
        ({
            let request = connect_request(target, encoded);
            let place = authority_text(target);
            let head = seq![67u8, 79u8, 78u8, 78u8, 69u8, 67u8, 84u8, 32u8] + place + seq![
                32u8, 72u8, 84u8, 84u8, 80u8, 47u8, 49u8, 46u8, 49u8, 13u8, 10u8, 72u8, 111u8,
                115u8, 116u8, 58u8, 32u8,
            ] + place + seq![13u8, 10u8];
            match encoded {
                None => request == head + seq![13u8, 10u8],
                Some(text) => {
                    &&& request.take(head.len() as int) == head
                    &&& request == head + request.subrange(
                        head.len() as int,
                        head.len() as int + 27,
                    ) + text + seq![13u8, 10u8, 13u8, 10u8]
                },
            }
        }),
        ({
            let place = authority_text(target);
            let port = decimal(target.port as nat);
            match target.ip {
                IpAddress::V4(_) => place == ip_text(target.ip) + seq![58u8] + port,
                IpAddress::V6(_) => place == seq![91u8] + ip_text(target.ip) + seq![93u8, 58u8]
                    + port,
            }
        }),
{
    let request = connect_request(target, encoded);
    let place = authority_text(target);
    let head = seq![67u8, 79u8, 78u8, 78u8, 69u8, 67u8, 84u8, 32u8] + place + seq![
        32u8, 72u8, 84u8, 84u8, 80u8, 47u8, 49u8, 46u8, 49u8, 13u8, 10u8, 72u8, 111u8, 115u8, 116u8,
        58u8, 32u8,
    ] + place + seq![13u8, 10u8];
    assert(connect_word() + place + version_and_host() + place + line_break() =~= head);
    match encoded {
        None => {
            assert(request =~= head + seq![13u8, 10u8]);
        },
        Some(text) => {
            assert(request.take(head.len() as int) =~= head);
            assert(request =~= head + request.subrange(head.len() as int, head.len() as int + 27) + text
                + seq![13u8, 10u8, 13u8, 10u8]);
        },
    }
}

/// Credentials are encoded with a colon between them, and the header stands in a
/// request exactly when there are any.
pub proof fn law_credentials_are_joined_by_a_colon(
    username: Seq<u8>,
    password: Seq<u8>,
    encoded: Seq<u8>,
)
    ensures
        basic_pair(username, password).take(username.len() as int) == username,
        basic_pair(username, password)[username.len() as int] as char == ':',
        basic_pair(username, password).skip(username.len() + 1int) == password,
        authorization_header(None).len() == 0,
        authorization_header(Some(encoded)).take(27).map_values(|b: u8| b as char)
            == "Proxy-Authorization: Basic "@,
        authorization_header(Some(encoded)).subrange(27, 27int + encoded.len()) == encoded,
        authorization_header(Some(encoded)).skip(27int + encoded.len()) == seq![13u8, 10],
{
    let pair = basic_pair(username, password);
    assert(pair.take(username.len() as int) =~= username);
    assert(pair.skip(username.len() + 1int) =~= password);
    reveal_strlit("Proxy-Authorization: Basic ");
    let header = authorization_header(Some(encoded));
    assert(header.take(27).map_values(|b: u8| b as char) =~= "Proxy-Authorization: Basic "@);
    assert(header.subrange(27, 27int + encoded.len()) =~= encoded);
    assert(header.skip(27int + encoded.len()) =~= seq![13u8, 10]);
}

/// The headers end behind the first empty line.
pub proof fn law_headers_end_at_the_first_empty_line(s: Seq<u8>, at: int)
    requires
        0 <= at <= s.len(),
    ensures
        header_end(s, at) matches Some(end) ==> {
            &&& at + 4 <= end <= s.len()
            &&& s[end - 4] == 13 && s[end - 3] == 10 && s[end - 2] == 13 && s[end - 1] == 10
            &&& forall|i: int|
                at <= i < end - 4 ==> !(#[trigger] s[i] == 13 && s[i + 1] == 10 && s[i + 2] == 13
                    && s[i + 3] == 10)
        },
        header_end(s, at) is None ==> forall|i: int|
            at <= i <= s.len() - 4 ==> !(#[trigger] s[i] == 13 && s[i + 1] == 10 && s[i + 2] == 13
                && s[i + 3] == 10),
    decreases s.len() - at,
{
    if at + 4 <= s.len() && !(s[at] == 13 && s[at + 1] == 10 && s[at + 2] == 13 && s[at + 3]
        == 10) {
        law_headers_end_at_the_first_empty_line(s, at + 1);
    }
}

} // verus!
