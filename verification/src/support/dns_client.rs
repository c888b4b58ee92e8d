//! A small DNS client: the queries it asks and the summary of what it is told.

use crate::address_text::{parts, place_of};
use crate::bytes::{be16, be16_bytes, be16_octets, read_be16};
use crate::dataplane::dns::{edns_limit, name_end, payload_limit_of, question_of};
use crate::text::{decimal, ipv4_text, push_all, push_decimal, push_ipv4};
use vstd::prelude::*;

verus! {

/// The labels of a name as a message holds them: the length in front of each.
pub open spec fn label_octets(labels: Seq<Seq<u8>>) -> Seq<u8>
    decreases labels.len(),
{
    if labels.len() == 0 {
        Seq::empty()
    } else {
        seq![labels[0].len() as u8] + labels[0] + label_octets(labels.skip(1))
    }
}

/// A name in dotted form as a message holds it.
pub open spec fn name_octets(name: Seq<u8>) -> Seq<u8> {
    label_octets(parts(name, 46)) + seq![0u8]
}

/// The record that announces how much UDP payload the client takes.
pub open spec fn announcement(payload: Option<u16>) -> Seq<u8> {
    match payload {
        Some(payload) => seq![0u8] + be16_bytes(41) + be16_bytes(payload) + seq![
            0u8,
            0u8,
            0u8,
            0u8,
            0u8,
            0u8,
        ],
        None => Seq::empty(),
    }
}

/// A recursive question for the IPv4 address of a name.
pub open spec fn query_message(id: u16, name: Seq<u8>, edns_payload: Option<u16>) -> Seq<u8> {
    be16_bytes(id) + be16_bytes(0x0100) + seq![0u8, 1u8, 0u8, 0u8, 0u8, 0u8] + be16_bytes(
        if edns_payload is Some {
            1
        } else {
            0
        },
    ) + name_octets(name) + seq![0u8, 1u8, 0u8, 1u8] + announcement(edns_payload)
}

/// Whether every label is short enough for its length octet.
pub open spec fn labels_fit(name: Seq<u8>) -> bool {
    forall|i: int|
        0 <= i < parts(name, 46).len() ==> (#[trigger] parts(name, 46)[i]).len() <= 255
}

/// The first label, and what is left behind its dot.
proof fn lemma_first_label(name: Seq<u8>)
    ensures
        ({
            let end = place_of(name, 46, 0);
            &&& 0 <= end <= name.len()
            &&& parts(name, 46)[0] == name.take(end)
            &&& end >= name.len() ==> parts(name, 46).skip(1) == Seq::<Seq<u8>>::empty()
            &&& end < name.len() ==> parts(name, 46).skip(1) == parts(name.skip(end + 1), 46)
            &&& labels_fit(name) ==> end <= 255 && (end < name.len() ==> labels_fit(
                name.skip(end + 1),
            ))
        }),
{
    let end = place_of(name, 46, 0);
    crate::address_text::lemma_place_bounds(name, 46, 0);
    if end >= name.len() {
        assert(name.take(end) =~= name);
        assert(parts(name, 46).skip(1) =~= Seq::<Seq<u8>>::empty());
        assert(parts(name, 46)[0].len() == end);
    } else {
        let rest = name.skip(end + 1);
        assert(parts(name, 46).skip(1) =~= parts(rest, 46));
        if labels_fit(name) {
            assert(parts(name, 46)[0].len() == end);
            assert forall|i: int| 0 <= i < parts(rest, 46).len() implies (#[trigger] parts(
                rest,
                46,
            )[i]).len() <= 255 by {
                assert(parts(name, 46)[i + 1] == parts(rest, 46)[i]);
            }
        }
    }
}

/// A short name has short labels.
pub proof fn lemma_short_names_fit(name: Seq<u8>)
    requires
        name.len() <= 255,
    ensures
        labels_fit(name),
    decreases name.len(),
{
    lemma_first_label(name);
    let end = place_of(name, 46, 0);
    let labels = parts(name, 46);
    assert(labels[0].len() == end);
    if end < name.len() {
        lemma_short_names_fit(name.skip(end + 1));
    }
    assert forall|i: int| 0 <= i < labels.len() implies (#[trigger] labels[i]).len() <= 255 by {
        if i > 0 {
            assert(labels.skip(1)[i - 1] == labels[i]);
        }
    }
}

/// Appends a name in the form of a message.
fn push_name(out: &mut Vec<u8>, name: &[u8])
    requires
        labels_fit(name@),
    ensures
        final(out)@ == old(out)@ + name_octets(name@),
{
    let ghost start = out@;
    let total: usize = name.len();
    let mut at: usize = 0;
    let mut more = true;
    assert(name@.skip(0) =~= name@);
    while more
        invariant
            total == name@.len(),
            at <= total,
            more ==> {
                &&& labels_fit(name@.skip(at as int))
                &&& out@ + label_octets(parts(name@.skip(at as int), 46)) == start + label_octets(
                    parts(name@, 46),
                )
            },
            !more ==> out@ == start + label_octets(parts(name@, 46)),
        decreases name@.len() - at + if more {
            1int
        } else {
            0
        },
    {
        let ghost rest = name@.skip(at as int);
        let ghost before = out@;
        proof {
            lemma_first_label(rest);
        }
        let ghost end = place_of(rest, 46, 0);
        let mut length: usize = 0;
        while length < total - at && name[at + length] != 46
            invariant
                total == name@.len(),
                at <= total,
                rest == name@.skip(at as int),
                end == place_of(rest, 46, 0),
                place_of(rest, 46, length as int) == end,
                length <= rest.len(),
                end <= rest.len(),
            decreases total - at - length,
        {
            assert(rest[length as int] == name@[at + length]);
            length = length + 1;
        }
        proof {
            if at + length < total {
                assert(rest[length as int] == name@[at + length]);
            }
            assert(length == end);
        }
        out.push(length as u8);
        push_all(out, vstd::slice::slice_subrange(name, at, at + length));
        proof {
            assert(name@.subrange(at as int, at + length) =~= rest.take(end));
            let labels = parts(rest, 46);
            assert(label_octets(labels) == seq![end as u8] + rest.take(end) + label_octets(
                labels.skip(1),
            ));
            assert(out@ =~= before + (seq![end as u8] + rest.take(end)));
            assert(out@ + label_octets(labels.skip(1)) =~= before + label_octets(labels));
        }
        if length < total - at {
            assert(rest.skip(end + 1) =~= name@.skip(at + length + 1));
            at = at + length + 1;
        } else {
            assert(out@ + Seq::<u8>::empty() =~= out@);
            more = false;
        }
    }
    out.push(0);
    assert(out@ =~= start + name_octets(name@));
}

/// Builds a recursive question for the IPv4 address of a name. With a payload
/// size the message also announces how much UDP payload the client takes.
#[must_use]
pub fn build_query(id: u16, name: &[u8], edns_payload: Option<u16>) -> (message: Vec<u8>)
    requires
        labels_fit(name@),
    ensures
        message@ == query_message(id, name@, edns_payload),
{
    let mut message: Vec<u8> = Vec::new();
    push_all(&mut message, &be16_octets(id));
    push_all(&mut message, &be16_octets(0x0100));
    push_all(&mut message, &[0, 1, 0, 0, 0, 0]);
    let records: u16 = if edns_payload.is_some() {
        1
    } else {
        0
    };
    push_all(&mut message, &be16_octets(records));
    push_name(&mut message, name);
    push_all(&mut message, &[0, 1, 0, 1]);
    if let Some(payload) = edns_payload {
        message.push(0);
        push_all(&mut message, &be16_octets(41));
        push_all(&mut message, &be16_octets(payload));
        push_all(&mut message, &[0, 0, 0, 0, 0, 0]);
    }
    assert(message@ =~= query_message(id, name@, edns_payload));
    message
}

/// Where the name at `offset` ends, if it does. A compression pointer ends a name
/// in place.
pub open spec fn name_after(message: Seq<u8>, offset: int) -> Option<int>
    decreases message.len() - offset + 256,
{
    if offset < 0 || offset >= message.len() {
        None
    } else if message[offset] == 0 {
        Some(offset + 1)
    } else if message[offset] >= 0xc0 {
        Some(offset + 2)
    } else {
        name_after(message, offset + message[offset] + 1)
    }
}

/// The most octets that a message read here has.
pub open spec fn readable(message: Seq<u8>) -> bool {
    message.len() <= usize::MAX - 0x2_0000
}

pub fn skip_name(message: &[u8], offset: usize) -> (end: Option<usize>)
    requires
        readable(message@),
    ensures
        match end {
            Some(end) => {
                &&& name_after(message@, offset as int) == Some(end as int)
                &&& end <= message@.len() + 1
            },
            None => name_after(message@, offset as int) is None,
        },
{
    let mut at: usize = offset;
    while at < message.len()
        invariant
            readable(message@),
            name_after(message@, at as int) == name_after(message@, offset as int),
        decreases message@.len() + 256 - at,
    {
        let length: u8 = message[at];
        if length == 0 {
            return Some(at + 1);
        }
        if length >= 0xc0 {
            return Some(at + 2);
        }
        at = at + length as usize + 1;
    }
    None
}

/// Where the next `count` questions end, if they do.
pub open spec fn questions_end(message: Seq<u8>, offset: int, count: nat) -> Option<int>
    decreases count,
{
    if count == 0 {
        Some(offset)
    } else {
        match name_after(message, offset) {
            Some(end) => questions_end(message, end + 4, (count - 1) as nat),
            None => None,
        }
    }
}

/// The first IPv4 address among the next `count` answers, or nothing if a name
/// among them does not end. A record that is cut off ends the search.
pub open spec fn answered_address(message: Seq<u8>, offset: int, count: nat) -> Option<
    Option<Seq<u8>>,
>
    decreases count,
{
    if count == 0 {
        Some(None)
    } else {
        match name_after(message, offset) {
            None => None,
            Some(end) => if end + 10 > message.len() {
                Some(None)
            } else {
                let length = be16(message, end + 8);
                let here = be16(message, end) == 1 && length == 4 && end + 14 <= message.len();
                let rest = answered_address(message, end + 10 + length, (count - 1) as nat);
                match rest {
                    Some(found) if here => Some(Some(message.subrange(end + 10, end + 14))),
                    _ => rest,
                }
            },
        }
    }
}

/// What an answer says.
#[derive(Clone, Copy, Debug, PartialEq, Eq)]
pub struct Response {
    pub id: u16,
    pub rcode: u8,
    pub truncated: bool,
    pub answers: u16,
    pub first_a: Option<[u8; 4]>,
    pub len: usize,
}

/// The first address of a message, if the message can be read to its end.
pub open spec fn message_address(message: Seq<u8>) -> Option<Option<Seq<u8>>> {
    if message.len() < 12 {
        None
    } else {
        match questions_end(message, 12, be16(message, 4) as nat) {
            Some(offset) => answered_address(message, offset, be16(message, 6) as nat),
            None => None,
        }
    }
}

pub open spec fn octets_of(address: Option<[u8; 4]>) -> Option<Seq<u8>> {
    match address {
        Some(octets) => Some(octets@),
        None => None,
    }
}

/// Whether `response` is what `message` says.
pub open spec fn says(response: Response, message: Seq<u8>) -> bool {
    &&& message_address(message) == Some(octets_of(response.first_a))
    &&& response.id == be16(message, 0)
    &&& response.rcode == be16(message, 2) % 16
    &&& response.truncated == (be16(message, 2) / 0x200 % 2 == 1)
    &&& response.answers == be16(message, 6)
    &&& response.len == message.len()
}

fn skip_questions(message: &[u8], count: u16) -> (end: Option<usize>)
    requires
        readable(message@),
        message@.len() >= 12,
    ensures
        match end {
            Some(end) => {
                &&& questions_end(message@, 12, count as nat) == Some(end as int)
                &&& end <= message@.len() + 12
            },
            None => questions_end(message@, 12, count as nat) is None,
        },
{
    let mut offset: usize = 12;
    let mut left: u16 = count;
    while left > 0
        invariant
            readable(message@),
            offset <= message@.len() + 12,
            questions_end(message@, offset as int, left as nat) == questions_end(
                message@,
                12,
                count as nat,
            ),
        decreases left,
    {
        match skip_name(message, offset) {
            Some(end) => {
                offset = end + 4;
            },
            None => return None,
        }
        left = left - 1;
    }
    Some(offset)
}

/// An address that was found keeps its place before those behind it.
pub open spec fn earlier(found: Option<Seq<u8>>, rest: Option<Option<Seq<u8>>>) -> Option<
    Option<Seq<u8>>,
> {
    match rest {
        Some(_) if found is Some => Some(found),
        _ => rest,
    }
}

fn find_address(message: &[u8], start: usize, count: u16) -> (found: Option<Option<[u8; 4]>>)
    requires
        readable(message@),
        start <= message@.len() + 12,
    ensures
        match found {
            Some(address) => answered_address(message@, start as int, count as nat) == Some(
                octets_of(address),
            ),
            None => answered_address(message@, start as int, count as nat) is None,
        },
{
    let mut offset: usize = start;
    let mut left: u16 = count;
    let mut first: Option<[u8; 4]> = None;
    while left > 0
        invariant
            readable(message@),
            offset <= message@.len() + 0x1_0020,
            earlier(octets_of(first), answered_address(message@, offset as int, left as nat))
                == answered_address(message@, start as int, count as nat),
        decreases left,
    {
        let end: usize = match skip_name(message, offset) {
            Some(end) => end,
            None => return None,
        };
        if end + 10 > message.len() {
            return Some(first);
        }
        let record: u16 = read_be16(message, end);
        let length: u16 = read_be16(message, end + 8);
        if record == 1 && length == 4 && end + 14 <= message.len() && first.is_none() {
            let octets: [u8; 4] = crate::bytes::take4(message, end + 10);
            assert(octets@ =~= message@.subrange(end + 10, end + 14));
            first = Some(octets);
        }
        offset = end + 10 + length as usize;
        left = left - 1;
    }
    Some(first)
}

/// Reads an answer.
pub fn parse_response(message: &[u8]) -> (response: Option<Response>)
    requires
        readable(message@),
    ensures
        match response {
            Some(response) => says(response, message@),
            None => message_address(message@) is None,
        },
{
    if message.len() < 12 {
        return None;
    }
    let flags: u16 = read_be16(message, 2);
    let offset: usize = match skip_questions(message, read_be16(message, 4)) {
        Some(offset) => offset,
        None => return None,
    };
    let answers: u16 = read_be16(message, 6);
    let first_a = match find_address(message, offset, answers) {
        Some(first_a) => first_a,
        None => return None,
    };
    Some(
        Response {
            id: read_be16(message, 0),
            rcode: (flags % 16) as u8,
            truncated: flags / 0x200 % 2 == 1,
            answers,
            first_a,
            len: message.len(),
        },
    )
}

/// The line that tells what an answer says.
pub open spec fn answer_line(sent_id: u16, message: Seq<u8>, address: Option<Seq<u8>>) -> Seq<u8> {
    let truncated: nat = if be16(message, 2) / 0x200 % 2 == 1 {
        1
    } else {
        0
    };
    // rcode= tc= answers= a= len= id=
    seq![114u8, 99u8, 111u8, 100u8, 101u8, 61u8] + decimal((be16(message, 2) % 16) as nat) + seq![
        32u8,
        116u8,
        99u8,
        61u8,
    ] + decimal(truncated) + seq![32u8, 97u8, 110u8, 115u8, 119u8, 101u8, 114u8, 115u8, 61u8]
        + decimal(be16(message, 6) as nat) + seq![32u8, 97u8, 61u8] + match address {
        Some(octets) => ipv4_text(octets),
        // none
        None => seq![110u8, 111u8, 110u8, 101u8],
    } + seq![32u8, 108u8, 101u8, 110u8, 61u8] + decimal(message.len()) + seq![
        32u8,
        105u8,
        100u8,
        61u8,
    ] + if be16(message, 0) == sent_id {
        // ok
        seq![111u8, 107u8]
    } else {
        // bad
        seq![98u8, 97u8, 100u8]
    }
}

/// The line that tells what came back, if anything that can be read did.
pub open spec fn description(sent_id: u16, message: Option<Seq<u8>>) -> Seq<u8> {
    match message {
        Some(message) if message_address(message) is Some => answer_line(
            sent_id,
            message,
            message_address(message)->0,
        ),
        // timeout
        _ => seq![116u8, 105u8, 109u8, 101u8, 111u8, 117u8, 116u8],
    }
}

/// Tells in one line what came back for the query with the identifier
/// `sent_id`.
#[must_use]
pub fn describe(sent_id: u16, raw: Option<&[u8]>) -> (text: Vec<u8>)
    requires
        raw matches Some(message) ==> readable(message@),
    ensures
        text@ == description(
            sent_id,
            match raw {
                Some(message) => Some(message@),
                None => None,
            },
        ),
{
    let mut text: Vec<u8> = Vec::new();
    let parsed = match raw {
        Some(message) => parse_response(message),
        None => None,
    };
    match parsed {
        None => {
            push_all(&mut text, &[116, 105, 109, 101, 111, 117, 116]);
        },
        Some(response) => {
            push_all(&mut text, &[114, 99, 111, 100, 101, 61]);
            push_decimal(&mut text, response.rcode as u64);
            push_all(&mut text, &[32, 116, 99, 61]);
            let truncated: u64 = if response.truncated {
                1
            } else {
                0
            };
            push_decimal(&mut text, truncated);
            push_all(&mut text, &[32, 97, 110, 115, 119, 101, 114, 115, 61]);
            push_decimal(&mut text, response.answers as u64);
            push_all(&mut text, &[32, 97, 61]);
            match response.first_a {
                Some(octets) => push_ipv4(&mut text, octets),
                None => push_all(&mut text, &[110, 111, 110, 101]),
            }
            push_all(&mut text, &[32, 108, 101, 110, 61]);
            push_decimal(&mut text, response.len as u64);
            push_all(&mut text, &[32, 105, 100, 61]);
            if response.id == sent_id {
                push_all(&mut text, &[111, 107]);
            } else {
                push_all(&mut text, &[98, 97, 100]);
            }
            proof {
                let message = raw->0@;
                assert(text@ =~= answer_line(sent_id, message, message_address(message)->0));
            }
        },
    }
    text
}

/// Whether a name keeps to the limits of the protocol.
pub open spec fn proper_labels(labels: Seq<Seq<u8>>) -> bool {
    &&& labels.len() < 128
    &&& forall|i: int| 0 <= i < labels.len() ==> 1 <= (#[trigger] labels[i]).len() <= 63
}

/// Labels that a message holds are read to their end.
proof fn lemma_labels_end(message: Seq<u8>, offset: int, labels: Seq<Seq<u8>>, most: nat)
    requires
        0 <= offset,
        labels.len() < most,
        forall|i: int| 0 <= i < labels.len() ==> 1 <= (#[trigger] labels[i]).len() <= 63,
        offset + label_octets(labels).len() < message.len(),
        message.subrange(offset, offset + label_octets(labels).len()) == label_octets(labels),
        message[offset + label_octets(labels).len()] == 0,
    ensures
        name_end(message, offset, most) == Some(offset + label_octets(labels).len() + 1),
        name_after(message, offset) == Some(offset + label_octets(labels).len() + 1),
    decreases labels.len(),
{
    let all = label_octets(labels);
    if labels.len() > 0 {
        let first = labels[0];
        let rest = labels.skip(1);
        let next = offset + first.len() + 1;
        assert(all == seq![first.len() as u8] + first + label_octets(rest));
        assert(all[0] == first.len());
        assert(message.subrange(offset, offset + all.len())[0] == message[offset]);
        assert forall|i: int| 0 <= i < rest.len() implies 1 <= (#[trigger] rest[i]).len() <= 63 by {
            assert(rest[i] == labels[i + 1]);
        }
        assert(message.subrange(next, next + label_octets(rest).len()) =~= label_octets(rest)) by {
            assert forall|i: int| 0 <= i < label_octets(rest).len() implies message[next + i]
                == #[trigger] label_octets(rest)[i] by {
                assert(all[first.len() + 1 + i] == label_octets(rest)[i]);
                assert(message.subrange(offset, offset + all.len())[first.len() + 1 + i]
                    == message[next + i]);
            }
        }
        lemma_labels_end(message, next, rest, (most - 1) as nat);
    }
}

/// The interceptor of gateway queries reads exactly the question that the client
/// asked, and the payload size that it announced.
pub proof fn law_query_is_understood(id: u16, name: Seq<u8>, edns_payload: Option<u16>)
    requires
        proper_labels(parts(name, 46)),
    ensures
        ({
            let message = query_message(id, name, edns_payload);
            let question = name_octets(name) + seq![0u8, 1u8, 0u8, 1u8];
            &&& question_of(message) == Some(question)
            &&& payload_limit_of(message, question) == match edns_payload {
                Some(payload) if payload > 512 => payload as int,
                _ => 512,
            }
        }),
{
    let message = query_message(id, name, edns_payload);
    let labels = label_octets(parts(name, 46));
    let question = name_octets(name) + seq![0u8, 1u8, 0u8, 1u8];
    let end = 12int + labels.len() + 1;
    assert(message.subrange(12, 12int + labels.len()) =~= labels);
    assert(message[12int + labels.len()] == 0);
    lemma_labels_end(message, 12, parts(name, 46), 128);
    assert(be16(message, 4) == 1);
    assert(message.subrange(12, end + 4) =~= question);
    assert(be16(message, 6) == 0);
    assert(be16(message, 8) == 0);
    let at = end + 4;
    if let Some(payload) = edns_payload {
        assert(be16(message, 10) == 1);
        assert(message[at] == 0);
        assert(name_end(message, at, 128) == Some(at + 1));
        assert(be16(message, at + 1) == 41);
        crate::bytes::lemma_be16_round_trip(payload);
        assert(message.subrange(at + 3, at + 5) =~= be16_bytes(payload));
        assert(be16(message, at + 3) == be16(be16_bytes(payload), 0)) by {
            assert(message.subrange(at + 3, at + 5)[0] == message[at + 3]);
            assert(message.subrange(at + 3, at + 5)[1] == message[at + 4]);
        }
        assert(message.len() == at + 11);
        assert(edns_limit(message, at, 0) == 512);
    } else {
        assert(be16(message, 10) == 0);
    }
}

/// A query holds its identifier, asks for recursion and one question, and says
/// whether a record with the payload size follows. The question is for an
/// internet address of the name.
pub proof fn law_query_has_its_form(id: u16, name: Seq<u8>, edns_payload: Option<u16>)
    ensures
        ({
            let message = query_message(id, name, edns_payload);
            let n = 12 + name_octets(name).len() as int;
            &&& 256 * message[0] + message[1] == id
            &&& message[2] == 1 && message[3] == 0
            &&& message[4] == 0 && message[5] == 1
            &&& message[6] == 0 && message[7] == 0 && message[8] == 0 && message[9] == 0
            &&& message[10] == 0
            &&& message[11] == if edns_payload is Some {
                1int
            } else {
                0
            }
            &&& message.subrange(12, n) == name_octets(name)
            &&& message.subrange(n, n + 4) == seq![0u8, 1, 0, 1]
            &&& message.len() == n + 4 + if edns_payload is Some {
                11int
            } else {
                0
            }
            &&& edns_payload is Some ==> {
                &&& message[n + 4] == 0 && message[n + 5] == 0 && message[n + 6] == 41
                &&& 256 * message[n + 7] + message[n + 8] == edns_payload.unwrap()
            }
        }),
{
    let message = query_message(id, name, edns_payload);
    let n = 12 + name_octets(name).len() as int;
    crate::bytes::law_octet_orders(message, 0, id, 0);
    let first = be16_bytes(id);
    assert(message[0] == first[0] && message[1] == first[1]);
    let flags = be16_bytes(0x0100);
    assert(message[2] == flags[0] && message[3] == flags[1]);
    assert(message.subrange(12, n) =~= name_octets(name));
    assert(message.subrange(n, n + 4) =~= seq![0u8, 1, 0, 1]);
    if edns_payload is Some {
        let kind = be16_bytes(41);
        let size = be16_bytes(edns_payload.unwrap());
        crate::bytes::law_octet_orders(message, 0, edns_payload.unwrap(), 0);
        assert(message[n + 5] == kind[0] && message[n + 6] == kind[1]);
        assert(message[n + 7] == size[0] && message[n + 8] == size[1]);
    }
}

/// An answer says its code in the low four bits of its fourth octet, that it was
/// cut in the second bit of its third, and how many answers it has.
pub proof fn law_answer_is_read_by_its_fields(response: Response, message: Seq<u8>)
    requires
        says(response, message),
        message.len() >= 12,
    ensures
        response.id == 256 * message[0] + message[1],
        response.rcode == message[3] % 16,
        response.truncated <==> message[2] / 2 % 2 == 1,
        response.answers == 256 * message[6] + message[7],
        response.len == message.len(),
{
    crate::bytes::law_octet_orders(message, 0, 0, 0);
    crate::bytes::law_octet_orders(message, 2, 0, 0);
    crate::bytes::law_octet_orders(message, 6, 0, 0);
}

/// A name goes from label to label by their lengths, and ends behind a zero or
/// behind the two octets of a pointer.
pub proof fn law_names_end_at_a_zero_or_a_pointer(message: Seq<u8>, offset: int)
    requires
        0 <= offset < message.len(),
    ensures
        message[offset] == 0 ==> name_after(message, offset) == Some(offset + 1),
        message[offset] >= 192 ==> name_after(message, offset) == Some(offset + 2),
        1 <= message[offset] <= 191 ==> name_after(message, offset) == name_after(
            message,
            offset + 1 + message[offset],
        ),
        name_after(message, message.len() as int) is None,
{
}

/// The address of an answer is that of its first record of type one with four
/// octets, as far as all the names end; other records are passed over by their
/// length.
pub proof fn law_first_address_counts(message: Seq<u8>, offset: int, end: int, count: nat)
    requires
        count > 0,
        0 <= offset,
        name_after(message, offset) == Some(end),
        0 <= end && end + 10 <= message.len(),
    ensures
        ({
            let kind = 256 * message[end] + message[end + 1];
            let length = 256 * message[end + 8] + message[end + 9];
            let rest = answered_address(message, end + 10 + length, (count - 1) as nat);
            let here = answered_address(message, offset, count);
            &&& kind == 1 && length == 4 && end + 14 <= message.len() && rest is Some ==> here
                == Some(Some(message.subrange(end + 10, end + 14)))
            &&& kind != 1 || length != 4 ==> here == rest
            &&& rest is None ==> here is None
        }),
        answered_address(message, offset, 0) == Some(None::<Seq<u8>>),
{
    crate::bytes::law_octet_orders(message, end, 0, 0);
    crate::bytes::law_octet_orders(message, end + 8, 0, 0);
}

} // verus!
