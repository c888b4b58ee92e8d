//! What upstream sockets are told and what they report.

use crate::bytes::{
    be16_bytes, lemma_ne16_at, lemma_ne32_at, ne16, ne16_bytes, ne32, ne32_bytes, zeros,
};
use crate::net::{IpAddress, SocketAddress};
use vstd::prelude::*;

verus! {

pub const AF_INET: u16 = 2;
pub const AF_INET6: u16 = 10;
pub const SOL_SOCKET: i32 = 1;
pub const SOL_IP: i32 = 0;
pub const SOL_IPV6: i32 = 41;
pub const SCM_RIGHTS: i32 = 1;
pub const SCM_TIMESTAMPING: i32 = 37;
pub const IP_RECVERR: i32 = 11;
pub const IPV6_RECVERR: i32 = 25;
pub const SO_EE_ORIGIN_TIMESTAMPING: u8 = 4;
pub const POLLOUT: i16 = 0x004;
pub const POLLERR: i16 = 0x008;
pub const POLLHUP: i16 = 0x010;

/// How many error-queue messages are read at a time.
pub const DRAIN_BATCH: usize = 16;

#[derive(Clone, Copy, Debug, PartialEq, Eq, Structural)]
pub enum SocketError {
    /// Half of the quota is no `i32`.
    QuotaTooLarge,
    /// The kernel gives the buffer more than its quota.
    QuotaExceeded,
    /// The kernel reports an address of another family, or a part of one.
    UnsupportedAddress,
    /// The channel is closed.
    Closed,
    /// No descriptor came with the message.
    MissingDescriptor,
    /// What came as a descriptor is negative.
    InvalidDescriptor,
}

/// The octets of `address` as the system calls take it.
pub open spec fn address_octets(address: SocketAddress) -> Seq<u8> {
    match address.ip {
        IpAddress::V4(ip) => ne16_bytes(AF_INET) + be16_bytes(address.port) + ip@ + zeros(8),
        IpAddress::V6(ip) => ne16_bytes(AF_INET6) + be16_bytes(address.port) + ne32_bytes(
            address.flowinfo,
        ) + ip@ + ne32_bytes(address.scope_id),
    }
}

#[must_use]
pub fn socket_address(address: SocketAddress) -> (octets: Vec<u8>)
    ensures
        octets@ == address_octets(address),
{
    let mut out: Vec<u8> = Vec::new();
    match address.ip {
        IpAddress::V4(ip) => {
            crate::text::push_all(&mut out, &crate::bytes::ne16_octets(AF_INET));
            crate::text::push_all(&mut out, &crate::bytes::be16_octets(address.port));
            crate::text::push_all(&mut out, &ip);
            let filler = [0, 0, 0, 0, 0, 0, 0, 0];
            assert(filler@ =~= zeros(8));
            crate::text::push_all(&mut out, &filler);
        },
        IpAddress::V6(ip) => {
            crate::text::push_all(&mut out, &crate::bytes::ne16_octets(AF_INET6));
            crate::text::push_all(&mut out, &crate::bytes::be16_octets(address.port));
            crate::text::push_all(&mut out, &crate::bytes::ne32_octets(address.flowinfo));
            crate::text::push_all(&mut out, &ip);
            crate::text::push_all(&mut out, &crate::bytes::ne32_octets(address.scope_id));
        },
    }
    assert(out@ =~= address_octets(address));
    out
}

/// Reads the address that the kernel reports of a socket. The flow label and
/// the zone are those of an IPv6 address.
pub fn read_address(octets: &[u8]) -> (result: Result<SocketAddress, SocketError>)
    ensures
        match result {
            Ok(address) => {
                &&& octets@.len() >= 2
                &&& match address.ip {
                    IpAddress::V4(ip) => {
                        &&& ne16(octets@, 0) == AF_INET
                        &&& octets@.len() >= 16
                        &&& address.port == crate::bytes::be16(octets@, 2)
                        &&& ip@ == octets@.subrange(4, 8)
                        &&& address.flowinfo == 0
                        &&& address.scope_id == 0
                    },
                    IpAddress::V6(ip) => {
                        &&& ne16(octets@, 0) == AF_INET6
                        &&& octets@.len() >= 28
                        &&& address.port == crate::bytes::be16(octets@, 2)
                        &&& address.flowinfo == ne32(octets@, 4)
                        &&& ip@ == octets@.subrange(8, 24)
                        &&& address.scope_id == ne32(octets@, 24)
                    },
                }
            },
            Err(error) => {
                &&& error == SocketError::UnsupportedAddress
                &&& octets@.len() < 2 || !(ne16(octets@, 0) == AF_INET && octets@.len() >= 16) && !(
                ne16(octets@, 0) == AF_INET6 && octets@.len() >= 28)
            },
        },
{
    if octets.len() < 2 {
        return Err(SocketError::UnsupportedAddress);
    }
    let family: u16 = crate::bytes::read_ne16(octets, 0);
    if family == AF_INET && octets.len() >= 16 {
        let port: u16 = crate::bytes::read_be16(octets, 2);
        let ip = crate::bytes::take4(octets, 4);
        return Ok(SocketAddress { ip: IpAddress::V4(ip), port, flowinfo: 0, scope_id: 0 });
    }
    if family == AF_INET6 && octets.len() >= 28 {
        let port: u16 = crate::bytes::read_be16(octets, 2);
        let flowinfo: u32 = crate::bytes::read_ne32(octets, 4);
        let ip = crate::bytes::take16(octets, 8);
        let scope_id: u32 = crate::bytes::read_ne32(octets, 24);
        return Ok(SocketAddress { ip: IpAddress::V6(ip), port, flowinfo, scope_id });
    }
    Err(SocketError::UnsupportedAddress)
}

/// What is written of an address is read back from it.
pub proof fn law_address_octets_round_trip(address: SocketAddress)
    ensures
        ({
            let octets = address_octets(address);
            &&& crate::bytes::be16(octets, 2) == address.port
            &&& match address.ip {
                IpAddress::V4(ip) => {
                    &&& octets.len() == 16
                    &&& ne16(octets, 0) == AF_INET
                    &&& octets.subrange(4, 8) == ip@
                },
                IpAddress::V6(ip) => {
                    &&& octets.len() == 28
                    &&& ne16(octets, 0) == AF_INET6
                    &&& ne32(octets, 4) == address.flowinfo
                    &&& octets.subrange(8, 24) == ip@
                    &&& ne32(octets, 24) == address.scope_id
                },
            }
        }),
{
    let octets = address_octets(address);
    let port = be16_bytes(address.port);
    assert(octets.subrange(2, 4) =~= port);
    assert(octets[2] == octets.subrange(2, 4)[0]);
    assert(octets[3] == octets.subrange(2, 4)[1]);
    match address.ip {
        IpAddress::V4(ip) => {
            assert(octets.subrange(0, 2) =~= ne16_bytes(AF_INET));
            lemma_ne16_at(octets, 0, AF_INET);
            assert(octets.subrange(4, 8) =~= ip@);
        },
        IpAddress::V6(ip) => {
            assert(octets.subrange(0, 2) =~= ne16_bytes(AF_INET6));
            lemma_ne16_at(octets, 0, AF_INET6);
            assert(octets.subrange(4, 8) =~= ne32_bytes(address.flowinfo));
            lemma_ne32_at(octets, 4, address.flowinfo);
            assert(octets.subrange(8, 24) =~= ip@);
            assert(octets.subrange(24, 28) =~= ne32_bytes(address.scope_id));
            lemma_ne32_at(octets, 24, address.scope_id);
        },
    }
}

/// What the kernel is asked for so that a buffer stays in its quota: half of it,
/// as the kernel doubles the number.
pub fn buffer_request(quota: usize) -> (result: Result<i32, SocketError>)
    ensures
        match result {
            Ok(requested) => requested == quota as int / 2,
            Err(error) => quota as int / 2 > i32::MAX && error == SocketError::QuotaTooLarge,
        },
{
    if quota / 2 > 0x7fff_ffff {
        return Err(SocketError::QuotaTooLarge);
    }
    Ok((quota / 2) as i32)
}

/// The size of a buffer as the kernel reports it.
#[must_use]
pub fn buffer_size(reported: i32) -> (size: usize)
    ensures
        size == if reported > 0 {
            reported as int
        } else {
            0
        },
{
    if reported > 0 {
        reported as usize
    } else {
        0
    }
}

/// Whether what the kernel reports of a buffer keeps to its quota.
pub fn check_buffer(reported: i32, quota: usize) -> (result: Result<(), SocketError>)
    ensures
        match result {
            Ok(_) => reported <= quota,
            Err(error) => reported > quota && error == SocketError::QuotaExceeded,
        },
{
    if buffer_size(reported) > quota {
        return Err(SocketError::QuotaExceeded);
    }
    Ok(())
}

/// Whether a connecting socket is ready, by what `poll` returned.
#[must_use]
pub fn writable_now(ready: i32, revents: i16) -> (writable: bool)
    ensures
        writable == (ready > 0 && revents & (POLLOUT | POLLERR | POLLHUP) != 0),
{
    ready > 0 && revents & (POLLOUT | POLLERR | POLLHUP) != 0
}

/// The error that waits on a socket, if one does.
#[must_use]
pub fn pending_error(reported: i32) -> (error: Option<i32>)
    ensures
        error == if reported != 0 {
            Some(reported)
        } else {
            None
        },
{
    if reported != 0 {
        Some(reported)
    } else {
        None
    }
}

/// Summary of one socket error-queue drain.
#[derive(Clone, Copy, Debug, PartialEq, Eq, Structural)]
pub struct TxTimestampDrain {
    /// Messages that carried a transmit-acknowledgment timestamp.
    pub acknowledgments: usize,
    /// Messages whose extended error did not originate from timestamping.
    pub foreign_errors: usize,
}

impl Default for TxTimestampDrain {
    fn default() -> (drain: TxTimestampDrain)
        ensures
            drain == (TxTimestampDrain { acknowledgments: 0, foreign_errors: 0 }),
    {
        TxTimestampDrain { acknowledgments: 0, foreign_errors: 0 }
    }
}

/// One control message of an error-queue message. `origin` is that of its
/// extended error, and counts only where there is one.
#[derive(Clone, Copy, Debug, PartialEq, Eq, Structural)]
pub struct ControlRecord {
    pub level: i32,
    pub kind: i32,
    pub origin: u8,
}

pub open spec fn is_timestamp(record: ControlRecord) -> bool {
    record.level == SOL_SOCKET && record.kind == SCM_TIMESTAMPING
}

pub open spec fn is_foreign(record: ControlRecord) -> bool {
    &&& record.level == SOL_IP && record.kind == IP_RECVERR || record.level == SOL_IPV6
        && record.kind == IPV6_RECVERR
    &&& record.origin != SO_EE_ORIGIN_TIMESTAMPING
}

pub open spec fn has_timestamp(records: Seq<ControlRecord>) -> bool {
    exists|i: int| 0 <= i < records.len() && is_timestamp(#[trigger] records[i])
}

pub open spec fn has_foreign(records: Seq<ControlRecord>) -> bool {
    exists|i: int| 0 <= i < records.len() && is_foreign(#[trigger] records[i])
}

/// `drain` after one more message: an acknowledgment if it has a timestamp and
/// nothing foreign, a foreign error if it has one.
pub open spec fn drained(drain: TxTimestampDrain, records: Seq<ControlRecord>) -> TxTimestampDrain {
    TxTimestampDrain {
        acknowledgments: if has_timestamp(records) && !has_foreign(records) {
            (drain.acknowledgments + 1) as usize
        } else {
            drain.acknowledgments
        },
        foreign_errors: if has_foreign(records) {
            (drain.foreign_errors + 1) as usize
        } else {
            drain.foreign_errors
        },
    }
}

/// Counts one error-queue message by its control messages.
pub fn count_drained(drain: &mut TxTimestampDrain, records: &[ControlRecord])
    requires
        old(drain).acknowledgments < usize::MAX,
        old(drain).foreign_errors < usize::MAX,
    ensures
        *final(drain) == drained(*old(drain), records@),
{
    let mut timestamped = false;
    let mut foreign = false;
    let mut i: usize = 0;
    while i < records.len()
        invariant
            i <= records@.len(),
            timestamped == exists|j: int| 0 <= j < i && is_timestamp(#[trigger] records@[j]),
            foreign == exists|j: int| 0 <= j < i && is_foreign(#[trigger] records@[j]),
        decreases records@.len() - i,
    {
        let record = records[i];
        assert(record == records@[i as int]);
        if record.level == SOL_SOCKET && record.kind == SCM_TIMESTAMPING {
            timestamped = true;
        } else if (record.level == SOL_IP && record.kind == IP_RECVERR || record.level == SOL_IPV6
            && record.kind == IPV6_RECVERR) && record.origin != SO_EE_ORIGIN_TIMESTAMPING {
            foreign = true;
        }
        i = i + 1;
    }
    if timestamped && !foreign {
        drain.acknowledgments = drain.acknowledgments + 1;
    }
    if foreign {
        drain.foreign_errors = drain.foreign_errors + 1;
    }
}

/// Whether the error queue is to be read once more: it is empty if a batch came
/// back short.
#[must_use]
pub fn drain_continues(received: usize) -> (more: bool)
    ensures
        more == (received >= DRAIN_BATCH),
{
    received >= DRAIN_BATCH
}

/// The first control message that came with a packet.
#[derive(Clone, Copy, Debug, PartialEq, Eq, Structural)]
pub struct RightsRecord {
    pub level: i32,
    pub kind: i32,
    pub len: usize,
    pub descriptor: i32,
}

/// The descriptor that came with a packet of `read` octets, whose control
/// message must be at least `descriptor_len` long.
pub fn received_descriptor(
    read: usize,
    record: Option<RightsRecord>,
    descriptor_len: usize,
) -> (result: Result<i32, SocketError>)
    ensures
        result == if read == 0 {
            Err(SocketError::Closed)
        } else {
            match record {
                Some(record) => if record.level != SOL_SOCKET || record.kind != SCM_RIGHTS
                    || record.len < descriptor_len {
                    Err(SocketError::MissingDescriptor)
                } else if record.descriptor < 0 {
                    Err(SocketError::InvalidDescriptor)
                } else {
                    Ok(record.descriptor)
                },
                None => Err(SocketError::MissingDescriptor),
            }
        },
{
    if read == 0 {
        return Err(SocketError::Closed);
    }
    match record {
        Some(record) => {
            if record.level != SOL_SOCKET || record.kind != SCM_RIGHTS || record.len
                < descriptor_len {
                return Err(SocketError::MissingDescriptor);
            }
            if record.descriptor < 0 {
                return Err(SocketError::InvalidDescriptor);
            }
            Ok(record.descriptor)
        },
        None => Err(SocketError::MissingDescriptor),
    }
}

/// An address is handed to the kernel with its family first, two for IPv4 and
/// ten for IPv6, then its port with the higher octet first, and the address.
pub proof fn law_address_has_its_form(address: SocketAddress)
    ensures
        ({
            let octets = address_octets(address);
            &&& 256 * octets[2] + octets[3] == address.port
            &&& match address.ip {
                IpAddress::V4(ip) => {
                    &&& octets.len() == 16
                    &&& ne16(octets, 0) == 2
                    &&& octets.subrange(4, 8) == ip@
                    &&& forall|i: int| 8 <= i < 16 ==> #[trigger] octets[i] == 0
                },
                IpAddress::V6(ip) => {
                    &&& octets.len() == 28
                    &&& ne16(octets, 0) == 10
                    &&& ne32(octets, 4) == address.flowinfo
                    &&& octets.subrange(8, 24) == ip@
                    &&& ne32(octets, 24) == address.scope_id
                },
            }
        }),
{
    let octets = address_octets(address);
    crate::bytes::law_octet_orders(octets, 0, address.port, 0);
    let port = be16_bytes(address.port);
    assert(octets[2] == port[0] && octets[3] == port[1]);
    match address.ip {
        IpAddress::V4(ip) => {
            assert(octets.subrange(0, 2) =~= ne16_bytes(2));
            lemma_ne16_at(octets, 0, 2);
            assert(octets.subrange(4, 8) =~= ip@);
        },
        IpAddress::V6(ip) => {
            assert(octets.subrange(0, 2) =~= ne16_bytes(10));
            lemma_ne16_at(octets, 0, 10);
            assert(octets.subrange(4, 8) =~= ne32_bytes(address.flowinfo));
            lemma_ne32_at(octets, 4, address.flowinfo);
            assert(octets.subrange(8, 24) =~= ip@);
            assert(octets.subrange(24, 28) =~= ne32_bytes(address.scope_id));
            lemma_ne32_at(octets, 24, address.scope_id);
        },
    }
}

/// A message of the error queue counts as an acknowledgment exactly when it
/// carries a timestamp and no error of another origin, and as a foreign error
/// exactly when it carries one.
pub proof fn law_error_queue_is_counted(drain: TxTimestampDrain, records: Seq<ControlRecord>)
    requires
        drain.acknowledgments < usize::MAX,
        drain.foreign_errors < usize::MAX,
    ensures
        drained(drain, records).acknowledgments + drained(drain, records).foreign_errors
            <= drain.acknowledgments + drain.foreign_errors + 1,
        drained(drain, records).foreign_errors == drain.foreign_errors + 1 <==> has_foreign(
            records,
        ),
        drained(drain, records).acknowledgments == drain.acknowledgments + 1 <==> has_timestamp(
            records,
        ) && !has_foreign(records),
        drained(drain, records).acknowledgments >= drain.acknowledgments,
        drained(drain, records).foreign_errors >= drain.foreign_errors,
{
}

/// A control message is a timestamp by its level and kind, and an error of
/// another origin by the levels and kinds of IPv4 and IPv6 errors, unless its
/// origin, number four, is the timestamp itself.
pub proof fn law_control_messages_are_told_apart(record: ControlRecord)
    ensures
        is_timestamp(record) <==> record.level == 1 && record.kind == 37,
        is_foreign(record) <==> record.origin != 4 && ((record.level == 0 && record.kind == 11) || (
        record.level == 41 && record.kind == 25)),
        !(is_timestamp(record) && is_foreign(record)),
{
}

} // verus!
