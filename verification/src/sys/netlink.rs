//! Route netlink requests and replies, in the byte order of the machine.

use crate::bytes::{
    lemma_ne16_at, lemma_ne32_at, ne16, ne16_bytes, ne32, ne32_bytes, splice, zeros,
};
use vstd::prelude::*;

verus! {

pub const HEADER_LEN: usize = 16;
pub const NLM_F_REQUEST: u16 = 0x0001;
pub const NLM_F_ACK: u16 = 0x0004;
/// `NLM_F_CREATE` and `NLM_F_EXCL`.
pub const NLM_F_CREATE_EXCL: u16 = 0x0600;
pub const NLMSG_ERROR: u16 = 2;
pub const RTM_NEWLINK: u16 = 16;
pub const RTM_NEWADDR: u16 = 20;
pub const RTM_NEWROUTE: u16 = 24;
pub const IFLA_ADDRESS: u16 = 1;
pub const IFLA_MTU: u16 = 4;
pub const IFA_ADDRESS: u16 = 1;
pub const IFA_LOCAL: u16 = 2;
pub const RTA_OIF: u16 = 4;
pub const RTA_GATEWAY: u16 = 5;
pub const AF_INET: u8 = 2;
pub const AF_INET6: u8 = 10;
pub const IFF_UP: u32 = 1;

#[derive(Clone, Copy, Debug, PartialEq, Eq, Structural)]
pub enum NetlinkError {
    AttributeTooLarge,
    MessageTooLarge,
    /// A message in the reply has an impossible length.
    InvalidReply,
    /// The error message in the reply is cut short.
    ShortError,
    /// The kernel refused the request, with this error number as it wrote it:
    /// negative.
    Refused(i32),
}

/// One attribute of a request.
#[derive(Clone, Copy, Debug)]
pub struct Attribute<'a> {
    pub kind: u16,
    pub value: &'a [u8],
}

/// The octets that fill `len` octets up to a whole word.
pub open spec fn padding(len: int) -> int {
    (4 - len % 4) % 4
}

/// `s`, filled up with zeros to a whole word.
pub open spec fn padded(s: Seq<u8>) -> Seq<u8> {
    s + zeros(padding(s.len() as int) as nat)
}

/// `out` with one attribute after it.
pub open spec fn appended(out: Seq<u8>, kind: u16, value: Seq<u8>) -> Seq<u8> {
    padded(out + ne16_bytes((4 + value.len()) as u16) + ne16_bytes(kind) + value)
}

/// The attributes as pairs of a kind and a value.
pub open spec fn pairs(attributes: Seq<Attribute>) -> Seq<(u16, Seq<u8>)> {
    Seq::new(attributes.len(), |i: int| (attributes[i].kind, attributes[i].value@))
}

/// `out` with the first `count` attributes after it.
pub open spec fn all_appended(
    out: Seq<u8>,
    attributes: Seq<(u16, Seq<u8>)>,
    count: int,
) -> Seq<u8>
    decreases count,
{
    if count <= 0 {
        out
    } else {
        let last = attributes[count - 1];
        appended(all_appended(out, attributes, count - 1), last.0, last.1)
    }
}

/// The header of a request before its length is filled in.
pub open spec fn unmeasured_header(message_type: u16, flags: u16, sequence: u32) -> Seq<u8> {
    zeros(4) + ne16_bytes(message_type) + ne16_bytes(NLM_F_REQUEST | NLM_F_ACK | flags)
        + ne32_bytes(sequence) + zeros(4)
}

/// A request before its length is filled in.
pub open spec fn unmeasured(
    message_type: u16,
    flags: u16,
    sequence: u32,
    body: Seq<u8>,
    attributes: Seq<(u16, Seq<u8>)>,
) -> Seq<u8> {
    let header = unmeasured_header(message_type, flags, sequence);
    padded(all_appended(header + body, attributes, attributes.len() as int))
}

/// The octets of a request: its length stands first.
pub open spec fn request_bytes(
    message_type: u16,
    flags: u16,
    sequence: u32,
    body: Seq<u8>,
    attributes: Seq<(u16, Seq<u8>)>,
) -> Seq<u8> {
    let packet = unmeasured(message_type, flags, sequence, body, attributes);
    splice(packet, 0, ne32_bytes(packet.len() as u32))
}

fn pad(out: &mut Vec<u8>)
    ensures
        final(out)@ == padded(old(out)@),
{
    let size: usize = out.len();
    let missing: usize = (4 - size % 4) % 4;
    let mut done: usize = 0;
    assert(out@ =~= old(out)@ + zeros(0));
    while done < missing
        invariant
            done <= missing,
            out@ == old(out)@ + zeros(done as nat),
        decreases missing - done,
    {
        out.push(0);
        done = done + 1;
        assert(out@ =~= old(out)@ + zeros(done as nat));
    }
}

/// Adds one attribute, filled up to a whole word.
pub fn append_attr(out: &mut Vec<u8>, kind: u16, value: &[u8]) -> (result: Result<(), NetlinkError>)
    ensures
        match result {
            Ok(_) => {
                &&& 4 + value@.len() <= 0xffff
                &&& final(out)@ == appended(old(out)@, kind, value@)
            },
            Err(error) => {
                &&& 4 + value@.len() > 0xffff
                &&& error == NetlinkError::AttributeTooLarge
                &&& *final(out) == *old(out)
            },
        },
{
    if value.len() > 0xffff - 4 {
        return Err(NetlinkError::AttributeTooLarge);
    }
    crate::text::push_all(out, &crate::bytes::ne16_octets((4 + value.len()) as u16));
    crate::text::push_all(out, &crate::bytes::ne16_octets(kind));
    crate::text::push_all(out, value);
    pad(out);
    Ok(())
}

/// Whether every attribute can say its own length.
pub open spec fn attributes_fit(attributes: Seq<(u16, Seq<u8>)>) -> bool {
    forall|i: int| 0 <= i < attributes.len() ==> 4 + (#[trigger] attributes[i]).1.len() <= 0xffff
}

proof fn lemma_appended_grows(
    out: Seq<u8>,
    attributes: Seq<(u16, Seq<u8>)>,
    count: int,
)
    requires
        0 <= count <= attributes.len(),
    ensures
        all_appended(out, attributes, count).len() >= out.len(),
    decreases count,
{
    if count > 0 {
        lemma_appended_grows(out, attributes, count - 1);
    }
}

pub fn request(
    message_type: u16,
    flags: u16,
    sequence: u32,
    body: &[u8],
    attributes: &[Attribute<'_>],
) -> (result: Result<Vec<u8>, NetlinkError>)
    ensures
        match result {
            Ok(packet) => {
                &&& attributes_fit(pairs(attributes@))
                &&& packet@.len() <= u32::MAX
                &&& packet@ == request_bytes(message_type, flags, sequence, body@, pairs(attributes@))
            },
            Err(error) => if attributes_fit(pairs(attributes@)) {
                &&& error == NetlinkError::MessageTooLarge
                &&& unmeasured(message_type, flags, sequence, body@, pairs(attributes@)).len() > u32::MAX
            } else {
                error == NetlinkError::AttributeTooLarge
            },
        },
{
    let mut packet: Vec<u8> = vec![0, 0, 0, 0];
    assert(packet@ =~= zeros(4));
    crate::text::push_all(&mut packet, &crate::bytes::ne16_octets(message_type));
    crate::text::push_all(
        &mut packet,
        &crate::bytes::ne16_octets(NLM_F_REQUEST | NLM_F_ACK | flags),
    );
    crate::text::push_all(&mut packet, &crate::bytes::ne32_octets(sequence));
    let pid = [0, 0, 0, 0];
    assert(pid@ =~= zeros(4));
    crate::text::push_all(&mut packet, &pid);
    crate::text::push_all(&mut packet, body);
    let ghost start = packet@;
    let mut done: usize = 0;
    while done < attributes.len()
        invariant
            done <= attributes@.len(),
            packet@ == all_appended(start, pairs(attributes@), done as int),
            forall|i: int|
                0 <= i < done ==> 4 + (#[trigger] pairs(attributes@)[i]).1.len() <= 0xffff,
        decreases attributes@.len() - done,
    {
        let attribute = attributes[done];
        match append_attr(&mut packet, attribute.kind, attribute.value) {
            Ok(_) => {},
            Err(error) => {
                assert(4 + pairs(attributes@)[done as int].1.len() > 0xffff);
                return Err(error);
            },
        }
        done = done + 1;
    }
    pad(&mut packet);
    let length: usize = packet.len();
    if length as u64 > u32::MAX as u64 {
        return Err(NetlinkError::MessageTooLarge);
    }
    proof {
        lemma_appended_grows(start, pairs(attributes@), attributes@.len() as int);
    }
    crate::bytes::put(packet.as_mut_slice(), 0, &crate::bytes::ne32_octets(length as u32));
    Ok(packet)
}

/// A request is a whole number of words and begins with its own length.
pub proof fn law_request_states_its_length(
    message_type: u16,
    flags: u16,
    sequence: u32,
    body: Seq<u8>,
    attributes: Seq<(u16, Seq<u8>)>,
)
    requires
        unmeasured(message_type, flags, sequence, body, attributes).len() <= u32::MAX,
    ensures
        ({
            let packet = request_bytes(message_type, flags, sequence, body, attributes);
            &&& packet.len() % 4 == 0
            &&& ne32(packet, 0) == packet.len()
            &&& ne16(packet, 4) == message_type
            &&& ne32(packet, 8) == sequence
        }),
{
    let header = unmeasured_header(message_type, flags, sequence);
    let before = all_appended(header + body, attributes, attributes.len() as int);
    let bare = unmeasured(message_type, flags, sequence, body, attributes);
    let packet = request_bytes(message_type, flags, sequence, body, attributes);
    lemma_appended_keeps(header + body, attributes, attributes.len() as int);
    assert(bare =~= padded(before));
    assert(packet.len() == bare.len());
    let length = ne32_bytes(bare.len() as u32);
    assert(packet.subrange(0, 4) =~= length);
    lemma_ne32_at(packet, 0, bare.len() as u32);
    assert forall|i: int| 4 <= i < 16 implies #[trigger] packet[i] == header[i] by {
        assert(packet[i] == bare[i]);
        assert(bare[i] == before[i]);
        assert(before[i] == (header + body)[i]);
    }
    assert(header.subrange(4, 6) =~= ne16_bytes(message_type));
    assert(packet.subrange(4, 6) =~= header.subrange(4, 6));
    lemma_ne16_at(packet, 4, message_type);
    assert(header.subrange(8, 12) =~= ne32_bytes(sequence));
    assert(packet.subrange(8, 12) =~= header.subrange(8, 12));
    lemma_ne32_at(packet, 8, sequence);
}

proof fn lemma_appended_keeps(
    out: Seq<u8>,
    attributes: Seq<(u16, Seq<u8>)>,
    count: int,
)
    requires
        0 <= count <= attributes.len(),
    ensures
        all_appended(out, attributes, count).len() >= out.len(),
        forall|i: int|
            0 <= i < out.len() ==> #[trigger] all_appended(out, attributes, count)[i] == out[i],
    decreases count,
{
    if count > 0 {
        lemma_appended_keeps(out, attributes, count - 1);
        let last = attributes[count - 1];
        let before = all_appended(out, attributes, count - 1);
        let after = appended(before, last.0, last.1);
        assert forall|i: int| 0 <= i < out.len() implies #[trigger] after[i] == out[i] by {
            assert(after[i] == before[i]);
        }
    }
}

/// What a reply says of a request.
#[derive(Clone, Copy, Debug, PartialEq, Eq, Structural)]
pub enum Reply {
    /// Nothing yet; more is to be read.
    Pending,
    /// The kernel did what was asked.
    Done,
    Failed(NetlinkError),
}

/// The answer to `sequence` in the messages of `bytes` from `offset` on.
pub open spec fn reply_from(bytes: Seq<u8>, sequence: u32, offset: int) -> Reply
    decreases bytes.len() - offset + 4,
{
    if offset + HEADER_LEN > bytes.len() {
        Reply::Pending
    } else {
        let length = ne32(bytes, offset) as int;
        if length < HEADER_LEN || offset + length > bytes.len() {
            Reply::Failed(NetlinkError::InvalidReply)
        } else if ne32(bytes, offset + 8) == sequence && ne16(bytes, offset + 4) == NLMSG_ERROR {
            if length < HEADER_LEN + 4 {
                Reply::Failed(NetlinkError::ShortError)
            } else if ne32(bytes, offset + 16) as i32 == 0 {
                Reply::Done
            } else {
                Reply::Failed(NetlinkError::Refused(ne32(bytes, offset + 16) as i32))
            }
        } else {
            reply_from(bytes, sequence, offset + length + padding(length))
        }
    }
}

/// Looks for the answer to the request numbered `sequence` in what was received.
#[must_use]
pub fn read_reply(bytes: &[u8], sequence: u32) -> (reply: Reply)
    ensures
        reply == reply_from(bytes@, sequence, 0),
{
    let size: usize = bytes.len();
    let mut offset: usize = 0;
    while offset <= size && HEADER_LEN <= size - offset
        invariant
            size == bytes@.len(),
            offset <= size,
            reply_from(bytes@, sequence, 0) == reply_from(bytes@, sequence, offset as int),
        decreases size - offset,
    {
        let claimed: u32 = crate::bytes::read_ne32(bytes, offset);
        if claimed < 16 || claimed as u64 > (size - offset) as u64 {
            return Reply::Failed(NetlinkError::InvalidReply);
        }
        let length: usize = claimed as usize;
        if crate::bytes::read_ne32(bytes, offset + 8) == sequence && crate::bytes::read_ne16(
            bytes,
            offset + 4,
        ) == NLMSG_ERROR {
            if length < HEADER_LEN + 4 {
                return Reply::Failed(NetlinkError::ShortError);
            }
            let error: i32 = crate::bytes::read_ne32(bytes, offset + 16) as i32;
            if error == 0 {
                return Reply::Done;
            }
            return Reply::Failed(NetlinkError::Refused(error));
        }
        let missing: usize = (4 - length % 4) % 4;
        if missing > size - offset - length {
            assert(reply_from(bytes@, sequence, offset + length + padding(length as int))
                == Reply::Pending);
            return Reply::Pending;
        }
        offset = offset + length + missing;
    }
    Reply::Pending
}

/// The body of a request that brings an interface up.
pub open spec fn link_body(index: u32) -> Seq<u8> {
    zeros(4) + ne32_bytes(index) + ne32_bytes(IFF_UP) + ne32_bytes(IFF_UP)
}

/// The body of a request for an address of an interface. IPv6 addresses skip
/// duplicate address detection.
pub open spec fn address_body(family: u8, prefix_len: u8, index: u32) -> Seq<u8> {
    seq![
        family,
        prefix_len,
        if family == AF_INET6 {
            2u8
        } else {
            0u8
        },
        0u8,
    ] + ne32_bytes(index)
}

/// The body of a request for a default route.
pub open spec fn route_body(family: u8) -> Seq<u8> {
    seq![family, 0u8, 0u8, 0u8, 254u8, 3u8, 0u8, 1u8] + zeros(4)
}

/// The request that brings an interface up, and gives it a hardware address and
/// an MTU if these are set.
pub open spec fn link_bytes(index: u32, device: Option<(Seq<u8>, u32)>, sequence: u32) -> Seq<u8> {
    request_bytes(
        RTM_NEWLINK,
        0,
        sequence,
        link_body(index),
        match device {
            Some((mac, mtu)) => seq![(IFLA_ADDRESS, mac), (IFLA_MTU, ne32_bytes(mtu))],
            None => Seq::empty(),
        },
    )
}

/// The request that gives an interface an address.
pub open spec fn address_bytes(
    index: u32,
    family: u8,
    prefix_len: u8,
    address: Seq<u8>,
    sequence: u32,
) -> Seq<u8> {
    request_bytes(
        RTM_NEWADDR,
        NLM_F_CREATE_EXCL,
        sequence,
        address_body(family, prefix_len, index),
        seq![(IFA_LOCAL, address), (IFA_ADDRESS, address)],
    )
}

/// The request that sends everything else through `gateway`.
pub open spec fn route_bytes(index: u32, family: u8, gateway: Seq<u8>, sequence: u32) -> Seq<u8> {
    request_bytes(
        RTM_NEWROUTE,
        NLM_F_CREATE_EXCL,
        sequence,
        route_body(family),
        seq![(RTA_GATEWAY, gateway), (RTA_OIF, ne32_bytes(index))],
    )
}

/// A request with at most two short attributes is not refused.
proof fn lemma_short_request_fits(
    message_type: u16,
    flags: u16,
    sequence: u32,
    body: Seq<u8>,
    attributes: Seq<(u16, Seq<u8>)>,
)
    requires
        body.len() <= 16,
        attributes.len() <= 2,
        forall|i: int| 0 <= i < attributes.len() ==> (#[trigger] attributes[i]).1.len() <= 16,
    ensures
        attributes_fit(attributes),
        unmeasured(message_type, flags, sequence, body, attributes).len() <= 100,
{
    reveal_with_fuel(all_appended, 3);
    if attributes.len() >= 1 {
        assert(attributes[0].1.len() <= 16);
    }
    if attributes.len() == 2 {
        assert(attributes[1].1.len() <= 16);
    }
}

/// Brings an interface up, and gives it a hardware address and an MTU if these
/// are set.
pub fn link_request(index: u32, device: Option<([u8; 6], u32)>, sequence: u32) -> (result: Result<
    Vec<u8>,
    NetlinkError,
>)
    ensures
        result is Ok,
        result->Ok_0@ == link_bytes(
            index,
            match device {
                Some((mac, mtu)) => Some((mac@, mtu)),
                None => None,
            },
            sequence,
        ),
{
    let mut body: Vec<u8> = vec![0, 0, 0, 0];
    assert(body@ =~= zeros(4));
    crate::text::push_all(&mut body, &crate::bytes::ne32_octets(index));
    crate::text::push_all(&mut body, &crate::bytes::ne32_octets(IFF_UP));
    crate::text::push_all(&mut body, &crate::bytes::ne32_octets(IFF_UP));
    match device {
        None => {
            let attributes: [Attribute<'_>; 0] = [];
            assert(pairs(attributes@) =~= Seq::empty());
            proof {
                lemma_short_request_fits(RTM_NEWLINK, 0, sequence, body@, pairs(attributes@));
            }
            request(RTM_NEWLINK, 0, sequence, &body, &attributes)
        },
        Some((mac, mtu)) => {
            let size = crate::bytes::ne32_octets(mtu);
            let attributes = [
                Attribute { kind: IFLA_ADDRESS, value: &mac },
                Attribute { kind: IFLA_MTU, value: &size },
            ];
            assert(pairs(attributes@) =~= seq![
                (IFLA_ADDRESS, mac@),
                (IFLA_MTU, ne32_bytes(mtu)),
            ]);
            proof {
                lemma_short_request_fits(RTM_NEWLINK, 0, sequence, body@, pairs(attributes@));
            }
            request(RTM_NEWLINK, 0, sequence, &body, &attributes)
        },
    }
}

/// Gives an interface an address.
pub fn address_request(
    index: u32,
    family: u8,
    prefix_len: u8,
    address: &[u8],
    sequence: u32,
) -> (result: Result<Vec<u8>, NetlinkError>)
    requires
        address@.len() <= 16,
    ensures
        result is Ok,
        result->Ok_0@ == address_bytes(index, family, prefix_len, address@, sequence),
{
    let flags: u8 = if family == AF_INET6 {
        2
    } else {
        0
    };
    let mut body: Vec<u8> = vec![family, prefix_len, flags, 0];
    assert(body@ =~= seq![family, prefix_len, flags, 0u8]);
    crate::text::push_all(&mut body, &crate::bytes::ne32_octets(index));
    let attributes = [
        Attribute { kind: IFA_LOCAL, value: address },
        Attribute { kind: IFA_ADDRESS, value: address },
    ];
    assert(pairs(attributes@) =~= seq![(IFA_LOCAL, address@), (IFA_ADDRESS, address@)]);
    proof {
        lemma_short_request_fits(
            RTM_NEWADDR,
            NLM_F_CREATE_EXCL,
            sequence,
            body@,
            pairs(attributes@),
        );
    }
    request(RTM_NEWADDR, NLM_F_CREATE_EXCL, sequence, &body, &attributes)
}

/// Sends everything else through `gateway`.
pub fn route_request(index: u32, family: u8, gateway: &[u8], sequence: u32) -> (result: Result<
    Vec<u8>,
    NetlinkError,
>)
    requires
        gateway@.len() <= 16,
    ensures
        result is Ok,
        result->Ok_0@ == route_bytes(index, family, gateway@, sequence),
{
    let mut body: Vec<u8> = vec![family, 0, 0, 0, 254, 3, 0, 1];
    assert(body@ =~= seq![family, 0u8, 0u8, 0u8, 254u8, 3u8, 0u8, 1u8]);
    let flags = [0, 0, 0, 0];
    assert(flags@ =~= zeros(4));
    crate::text::push_all(&mut body, &flags);
    let output = crate::bytes::ne32_octets(index);
    let attributes = [
        Attribute { kind: RTA_GATEWAY, value: gateway },
        Attribute { kind: RTA_OIF, value: &output },
    ];
    assert(pairs(attributes@) =~= seq![(RTA_GATEWAY, gateway@), (RTA_OIF, ne32_bytes(index))]);
    proof {
        lemma_short_request_fits(
            RTM_NEWROUTE,
            NLM_F_CREATE_EXCL,
            sequence,
            body@,
            pairs(attributes@),
        );
    }
    request(RTM_NEWROUTE, NLM_F_CREATE_EXCL, sequence, &body, &attributes)
}

/// An IPv4 address, its prefix length and the gateway.
#[derive(Clone, Copy, Debug)]
pub struct Ipv4Plan {
    pub address: [u8; 4],
    pub prefix_len: u8,
    pub gateway: [u8; 4],
}

/// An IPv6 address, its prefix length and the gateway.
#[derive(Clone, Copy, Debug)]
pub struct Ipv6Plan {
    pub address: [u8; 16],
    pub prefix_len: u8,
    pub gateway: [u8; 16],
}

/// The requests of one address family, the first numbered `sequence`.
pub open spec fn family_requests(
    index: u32,
    family: u8,
    prefix_len: u8,
    address: Seq<u8>,
    gateway: Seq<u8>,
    sequence: u32,
) -> Seq<Seq<u8>> {
    seq![
        address_bytes(index, family, prefix_len, address, sequence),
        route_bytes(index, family, gateway, (sequence + 1) as u32),
    ]
}

/// What is asked of the kernel, in this order, about the TAP interface `index`:
/// to bring it up, then for each family its address and its default route. The
/// first request is the second on its socket.
pub open spec fn tap_plan(
    index: u32,
    mac: Seq<u8>,
    mtu: u32,
    ipv4: Option<Ipv4Plan>,
    ipv6: Option<Ipv6Plan>,
) -> Seq<Seq<u8>> {
    let after_v4: u32 = if ipv4 is Some {
        5
    } else {
        3
    };
    seq![link_bytes(index, Some((mac, mtu)), 2)] + match ipv4 {
        Some(plan) => family_requests(
            index,
            AF_INET,
            plan.prefix_len,
            plan.address@,
            plan.gateway@,
            3,
        ),
        None => Seq::empty(),
    } + match ipv6 {
        Some(plan) => family_requests(
            index,
            AF_INET6,
            plan.prefix_len,
            plan.address@,
            plan.gateway@,
            after_v4,
        ),
        None => Seq::empty(),
    }
}

/// The octets of each of the requests.
pub open spec fn octets(requests: Seq<Vec<u8>>) -> Seq<Seq<u8>> {
    Seq::new(requests.len(), |i: int| requests[i]@)
}

/// The request that brings the loopback interface up, the first on its socket.
pub fn loopback_request(index: u32) -> (result: Result<Vec<u8>, NetlinkError>)
    ensures
        result is Ok,
        result->Ok_0@ == link_bytes(index, None, 1),
{
    link_request(index, None, 1)
}

/// The requests that set the TAP interface up.
pub fn tap_requests(
    index: u32,
    mac: [u8; 6],
    mtu: u32,
    ipv4: Option<Ipv4Plan>,
    ipv6: Option<Ipv6Plan>,
) -> (result: Result<Vec<Vec<u8>>, NetlinkError>)
    ensures
        result is Ok,
        octets(result->Ok_0@) == tap_plan(index, mac@, mtu, ipv4, ipv6),
{
    let mut requests: Vec<Vec<u8>> = Vec::new();
    requests.push(link_request(index, Some((mac, mtu)), 2)?);
    assert(octets(requests@) =~= seq![link_bytes(index, Some((mac@, mtu)), 2)]);
    let mut sequence: u32 = 3;
    if let Some(plan) = ipv4 {
        let address = address_request(index, AF_INET, plan.prefix_len, &plan.address, 3)?;
        let route = route_request(index, AF_INET, &plan.gateway, 4)?;
        requests.push(address);
        requests.push(route);
        sequence = 5;
        assert(octets(requests@) =~= seq![link_bytes(index, Some((mac@, mtu)), 2)] + family_requests(
            index,
            AF_INET,
            plan.prefix_len,
            plan.address@,
            plan.gateway@,
            3,
        ));
    }
    let ghost before = octets(requests@);
    if let Some(plan) = ipv6 {
        let address = address_request(index, AF_INET6, plan.prefix_len, &plan.address, sequence)?;
        let route = route_request(index, AF_INET6, &plan.gateway, sequence + 1)?;
        requests.push(address);
        requests.push(route);
        assert(octets(requests@) =~= before + family_requests(
            index,
            AF_INET6,
            plan.prefix_len,
            plan.address@,
            plan.gateway@,
            sequence,
        ));
    }
    assert(octets(requests@) =~= tap_plan(index, mac@, mtu, ipv4, ipv6));
    Ok(requests)
}

/// An attribute is its length with four octets for itself, its kind and its
/// value, and the next one starts at a whole word.
pub proof fn law_attribute_has_its_form(out: Seq<u8>, kind: u16, value: Seq<u8>)
    requires
        out.len() % 4 == 0,
        value.len() <= 0xffff - 4,
    ensures
        ({
            let all = appended(out, kind, value);
            let n = out.len() as int;
            &&& all.take(n) == out
            &&& ne16(all, n) == 4 + value.len()
            &&& ne16(all, n + 2) == kind
            &&& all.subrange(n + 4, n + 4 + value.len()) == value
            &&& all.len() % 4 == 0
            &&& all.len() - n - 4 - value.len() < 4
        }),
{
    let all = appended(out, kind, value);
    let n = out.len() as int;
    assert(all.take(n) =~= out);
    assert(all.subrange(n, n + 2) =~= ne16_bytes((4 + value.len()) as u16));
    assert(all.subrange(n + 2, n + 4) =~= ne16_bytes(kind));
    lemma_ne16_at(all, n, (4 + value.len()) as u16);
    lemma_ne16_at(all, n + 2, kind);
    assert(all.subrange(n + 4, n + 4 + value.len()) =~= value);
}

/// Every request wants to be acknowledged, and its body follows its header of
/// sixteen octets.
pub proof fn law_request_wants_an_answer(
    message_type: u16,
    flags: u16,
    sequence: u32,
    body: Seq<u8>,
    attributes: Seq<(u16, Seq<u8>)>,
)
    ensures
        ({
            let packet = request_bytes(message_type, flags, sequence, body, attributes);
            &&& packet.len() >= 16 + body.len()
            &&& ne16(packet, 6) & 5 == 5
            &&& ne16(packet, 6) & flags == flags
            &&& ne16(packet, 6) & !(flags | 5) == 0
            &&& packet.subrange(16, 16int + body.len()) == body
        }),
{
    let header = unmeasured_header(message_type, flags, sequence);
    let before = all_appended(header + body, attributes, attributes.len() as int);
    let bare = unmeasured(message_type, flags, sequence, body, attributes);
    let packet = request_bytes(message_type, flags, sequence, body, attributes);
    lemma_appended_keeps(header + body, attributes, attributes.len() as int);
    assert(bare =~= padded(before));
    assert(packet.len() == bare.len());
    assert forall|i: int| 4 <= i < 16 + body.len() implies #[trigger] packet[i] == (header
        + body)[i] by {
        assert(packet[i] == bare[i]);
        assert(bare[i] == before[i]);
    }
    let bits = NLM_F_REQUEST | NLM_F_ACK | flags;
    assert(header.subrange(6, 8) =~= ne16_bytes(bits));
    assert(packet.subrange(6, 8) =~= header.subrange(6, 8));
    lemma_ne16_at(packet, 6, bits);
    assert((1u16 | 4u16 | flags) & 5 == 5 && (1u16 | 4u16 | flags) & flags == flags && (1u16 | 4u16
        | flags) & !(flags | 5) == 0) by (bit_vector);
    assert(packet.subrange(16, 16int + body.len()) =~= body);
}

/// What is asked for: an interface by its index to be up, an address with its
/// family and prefix length on an interface, and a default route of a family.
pub proof fn law_bodies_say_what_is_asked_for(index: u32, family: u8, prefix_len: u8)
    ensures
        link_body(index).len() == 16,
        ne32(link_body(index), 4) == index,
        ne32(link_body(index), 8) == 1,
        ne32(link_body(index), 12) == 1,
        address_body(family, prefix_len, index).len() == 8,
        address_body(family, prefix_len, index)[0] == family,
        address_body(family, prefix_len, index)[1] == prefix_len,
        address_body(family, prefix_len, index)[2] == if family == 10 {
            2int
        } else {
            0
        },
        address_body(family, prefix_len, index)[3] == 0,
        ne32(address_body(family, prefix_len, index), 4) == index,
        route_body(family).len() == 12,
        route_body(family)[0] == family,
        route_body(family)[1] == 0,
        route_body(family)[2] == 0,
        route_body(family)[4] == 254,
        route_body(family)[5] == 3,
        route_body(family)[6] == 0,
        route_body(family)[7] == 1,
{
    let link = link_body(index);
    assert(link.subrange(4, 8) =~= ne32_bytes(index));
    assert(link.subrange(8, 12) =~= ne32_bytes(1));
    assert(link.subrange(12, 16) =~= ne32_bytes(1));
    lemma_ne32_at(link, 4, index);
    lemma_ne32_at(link, 8, 1);
    lemma_ne32_at(link, 12, 1);
    let address = address_body(family, prefix_len, index);
    assert(address.subrange(4, 8) =~= ne32_bytes(index));
    lemma_ne32_at(address, 4, index);
}

/// The requests for an interface: with a device it gets a hardware address and
/// an MTU, an address is both local and that of the interface, and a default
/// route goes through the gateway and the interface.
pub proof fn law_requests_name_their_attributes(
    index: u32,
    family: u8,
    prefix_len: u8,
    mac: Seq<u8>,
    mtu: u32,
    address: Seq<u8>,
    sequence: u32,
)
    ensures
        link_bytes(index, Some((mac, mtu)), sequence) == request_bytes(
            16,
            0,
            sequence,
            link_body(index),
            seq![(1u16, mac), (4u16, ne32_bytes(mtu))],
        ),
        link_bytes(index, None, sequence) == request_bytes(
            16,
            0,
            sequence,
            link_body(index),
            Seq::empty(),
        ),
        address_bytes(index, family, prefix_len, address, sequence) == request_bytes(
            20,
            0x600,
            sequence,
            address_body(family, prefix_len, index),
            seq![(2u16, address), (1u16, address)],
        ),
        route_bytes(index, family, address, sequence) == request_bytes(
            24,
            0x600,
            sequence,
            route_body(family),
            seq![(5u16, address), (4u16, ne32_bytes(index))],
        ),
{
}

/// The interface is brought up first. Each family that is set then gets its
/// address and its default route, IPv4 before IPv6, and the requests are
/// numbered one after the other from two on.
pub proof fn law_interface_is_set_up_in_order(
    index: u32,
    mac: Seq<u8>,
    mtu: u32,
    ipv4: Option<Ipv4Plan>,
    ipv6: Option<Ipv6Plan>,
)
    ensures
        ({
            let plan = tap_plan(index, mac, mtu, ipv4, ipv6);
            let narrow = if ipv4 is Some {
                2int
            } else {
                0
            };
            let wide = if ipv6 is Some {
                2int
            } else {
                0
            };
            &&& plan.len() == 1 + narrow + wide
            &&& plan[0] == link_bytes(index, Some((mac, mtu)), 2)
            &&& ipv4 is Some ==> {
                let own = ipv4.unwrap();
                &&& plan[1] == address_bytes(index, 2, own.prefix_len, own.address@, 3)
                &&& plan[2] == route_bytes(index, 2, own.gateway@, 4)
            }
            &&& ipv6 is Some ==> {
                let own = ipv6.unwrap();
                &&& plan[1 + narrow] == address_bytes(
                    index,
                    10,
                    own.prefix_len,
                    own.address@,
                    (3 + narrow) as u32,
                )
                &&& plan[2 + narrow] == route_bytes(
                    index,
                    10,
                    own.gateway@,
                    (4 + narrow) as u32,
                )
            }
        }),
{
}

/// A reply is the answer to the request with its number: a message of type two
/// whose code is zero means that it was done, and any other code that it was
/// refused with it. Messages of other numbers or types are passed over, to the
/// next whole word.
pub proof fn law_answer_is_found_by_its_number(bytes: Seq<u8>, sequence: u32, offset: int)
    requires
        offset >= 0,
        offset + 16 <= bytes.len(),
        16 <= ne32(bytes, offset) <= bytes.len() - offset,
    ensures
        ({
            let length = ne32(bytes, offset) as int;
            let answers = ne32(bytes, offset + 8) == sequence && ne16(bytes, offset + 4) == 2;
            let reply = reply_from(bytes, sequence, offset);
            &&& answers && length >= 20 && ne32(bytes, offset + 16) as i32 == 0 ==> reply
                == Reply::Done
            &&& answers && length >= 20 && ne32(bytes, offset + 16) as i32 != 0 ==> reply
                == Reply::Failed(NetlinkError::Refused(ne32(bytes, offset + 16) as i32))
            &&& answers && length < 20 ==> reply == Reply::Failed(NetlinkError::ShortError)
            &&& !answers && length % 4 == 0 ==> reply == reply_from(
                bytes,
                sequence,
                offset + length,
            )
            &&& !answers ==> (exists|next: int|
                #![trigger reply_from(bytes, sequence, next)]
                offset + length <= next < offset + length + 4 && (next - offset) % 4 == 0 && reply
                    == reply_from(bytes, sequence, next))
        }),
        reply_from(bytes, sequence, bytes.len() - 15) == Reply::Pending,
{
    let length = ne32(bytes, offset) as int;
    let answers = ne32(bytes, offset + 8) == sequence && ne16(bytes, offset + 4) == 2;
    if !answers {
        let next = offset + length + padding(length);
        assert((next - offset) % 4 == 0);
        assert(reply_from(bytes, sequence, offset) == reply_from(bytes, sequence, next));
    }
}

} // verus!
