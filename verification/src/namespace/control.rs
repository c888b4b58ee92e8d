//! What is awaited on the control channels.

use crate::bytes::{le32, le32_bytes};
use crate::sys::control::{ControlError, HEADER_LEN, Kind, decode_error};
use vstd::prelude::*;

verus! {

/// The room for the longest message.
pub const BUFFER_LEN: usize = 4116;

pub enum ExpectError {
    /// The packet is no message.
    Control(ControlError),
    /// The other side reports a failure, in this text.
    Reported(Vec<u8>),
    /// The message is of another kind.
    Unexpected(Kind),
}

/// The kind of the message in `packet`.
pub open spec fn kind_of(packet: Seq<u8>) -> Kind {
    Kind::numbered(crate::bytes::le16(packet, 6))->0
}

/// The payload of the message in `packet`.
pub open spec fn payload_of(packet: Seq<u8>) -> Seq<u8> {
    packet.skip(HEADER_LEN as int)
}

/// The payload of the message in `packet`, which must be of the expected kind.
pub fn expect(packet: &[u8], expected: Kind) -> (result: Result<Vec<u8>, ExpectError>)
    ensures
        match result {
            Ok(payload) => {
                &&& decode_error(packet@) is None
                &&& kind_of(packet@) == expected
                &&& expected != Kind::Error
                &&& payload@ == payload_of(packet@)
            },
            Err(ExpectError::Control(error)) => decode_error(packet@) == Some(error),
            Err(ExpectError::Reported(text)) => {
                &&& decode_error(packet@) is None
                &&& kind_of(packet@) == Kind::Error
                &&& text@ == payload_of(packet@)
            },
            Err(ExpectError::Unexpected(kind)) => {
                &&& decode_error(packet@) is None
                &&& kind == kind_of(packet@)
                &&& kind != expected
                &&& kind != Kind::Error
            },
        },
{
    match crate::sys::control::decode(packet) {
        Ok(message) => {
            let mut payload: Vec<u8> = Vec::new();
            crate::text::push_all(&mut payload, message.payload);
            assert(payload@ =~= payload_of(packet@));
            if message.kind == Kind::Error {
                return Err(ExpectError::Reported(payload));
            }
            if message.kind != expected {
                return Err(ExpectError::Unexpected(message.kind));
            }
            Ok(payload)
        },
        Err(error) => Err(ExpectError::Control(error)),
    }
}

/// A process or an exit code as a payload.
#[must_use]
pub fn number_payload(number: i32) -> (payload: [u8; 4])
    ensures
        payload@ == le32_bytes(number as u32),
{
    crate::bytes::le32_octets(number as u32)
}

/// The number in a payload, which must be four octets long.
#[must_use]
pub fn read_number(payload: &[u8]) -> (number: Option<i32>)
    ensures
        number == if payload@.len() == 4 {
            Some(le32(payload@, 0) as i32)
        } else {
            None
        },
{
    if payload.len() != 4 {
        return None;
    }
    Some(crate::bytes::read_le32(payload, 0) as i32)
}

/// A number reads back from its payload.
pub proof fn law_number_round_trip(number: i32)
    ensures
        le32_bytes(number as u32).len() == 4,
        le32(le32_bytes(number as u32), 0) as i32 == number,
{
    let v = number as u32;
    let octets = le32_bytes(v);
    assert(le32(octets, 0) == v);
    assert((number as u32) as i32 == number) by (bit_vector);
}

/// The kind of a message is the number in its seventh and eighth octets, the
/// lower one first, and its payload lies behind twenty octets.
pub proof fn law_message_has_its_parts(packet: Seq<u8>, kind: Kind)
    requires
        packet.len() >= 20,
        Kind::numbered(crate::bytes::le16(packet, 6)) == Some(kind),
    ensures
        kind_of(packet) == kind,
        payload_of(packet).len() == packet.len() - 20,
        payload_of(packet) == packet.subrange(20, packet.len() as int),
{
    assert(payload_of(packet) =~= packet.subrange(20, packet.len() as int));
}

} // verus!
