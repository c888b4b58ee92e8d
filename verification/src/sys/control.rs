//! Messages between the supervisor and its children.

use crate::bytes::{le16, le16_bytes, le32, le32_bytes, le64, le64_bytes};
use vstd::prelude::*;

verus! {

pub const VERSION: u16 = 1;
pub const MAX_PAYLOAD: usize = 4096;
pub const HEADER_LEN: usize = 20;

/// The four octets that every message starts with: `YAYA`.
pub open spec fn magic() -> Seq<u8> {
    seq![89u8, 65u8, 89u8, 65u8]
}

#[derive(Clone, Copy, Debug, PartialEq, Eq, Structural)]
pub enum Kind {
    MapsReady,
    Ready,
    Exec,
    Shutdown,
    Exit,
    Error,
    Status,
}

impl Kind {
    pub open spec fn number(self) -> u16 {
        match self {
            Kind::MapsReady => 1,
            Kind::Ready => 2,
            Kind::Exec => 3,
            Kind::Shutdown => 4,
            Kind::Exit => 5,
            Kind::Error => 6,
            Kind::Status => 7,
        }
    }

    pub open spec fn numbered(raw: u16) -> Option<Kind> {
        if raw == 1 {
            Some(Kind::MapsReady)
        } else if raw == 2 {
            Some(Kind::Ready)
        } else if raw == 3 {
            Some(Kind::Exec)
        } else if raw == 4 {
            Some(Kind::Shutdown)
        } else if raw == 5 {
            Some(Kind::Exit)
        } else if raw == 6 {
            Some(Kind::Error)
        } else if raw == 7 {
            Some(Kind::Status)
        } else {
            None
        }
    }

    #[must_use]
    pub fn raw(self) -> (raw: u16)
        ensures
            raw == self.number(),
    {
        match self {
            Kind::MapsReady => 1,
            Kind::Ready => 2,
            Kind::Exec => 3,
            Kind::Shutdown => 4,
            Kind::Exit => 5,
            Kind::Error => 6,
            Kind::Status => 7,
        }
    }

    #[must_use]
    pub fn from_raw(raw: u16) -> (kind: Option<Kind>)
        ensures
            kind == Kind::numbered(raw),
    {
        match raw {
            1 => Some(Kind::MapsReady),
            2 => Some(Kind::Ready),
            3 => Some(Kind::Exec),
            4 => Some(Kind::Shutdown),
            5 => Some(Kind::Exit),
            6 => Some(Kind::Error),
            7 => Some(Kind::Status),
            _ => None,
        }
    }
}

#[derive(Clone, Copy, Debug, PartialEq, Eq)]
pub struct Message<'a> {
    pub kind: Kind,
    pub request_id: u64,
    pub payload: &'a [u8],
}

#[derive(Clone, Copy, Debug, PartialEq, Eq, Structural)]
pub enum ControlError {
    PayloadTooLarge,
    InvalidHeader,
    UnsupportedVersion,
    UnknownKind,
    InvalidPayloadLength,
}

/// The octets of a message.
pub open spec fn message_bytes(kind: Kind, request_id: u64, payload: Seq<u8>) -> Seq<u8> {
    magic() + le16_bytes(VERSION) + le16_bytes(kind.number()) + le32_bytes(payload.len() as u32)
        + le64_bytes(request_id) + payload
}

pub fn encode(kind: Kind, request_id: u64, payload: &[u8]) -> (result: Result<
    Vec<u8>,
    ControlError,
>)
    ensures
        match result {
            Ok(bytes) => {
                &&& payload@.len() <= MAX_PAYLOAD
                &&& bytes@ == message_bytes(kind, request_id, payload@)
            },
            Err(error) => payload@.len() > MAX_PAYLOAD && error == ControlError::PayloadTooLarge,
        },
{
    if payload.len() > MAX_PAYLOAD {
        return Err(ControlError::PayloadTooLarge);
    }
    let mut out: Vec<u8> = vec![89, 65, 89, 65];
    assert(out@ =~= magic());
    crate::text::push_all(&mut out, &crate::bytes::le16_octets(VERSION));
    crate::text::push_all(&mut out, &crate::bytes::le16_octets(kind.raw()));
    crate::text::push_all(&mut out, &crate::bytes::le32_octets(payload.len() as u32));
    crate::text::push_all(
        &mut out,
        &crate::bytes::le32_octets((request_id % 0x1_0000_0000) as u32),
    );
    crate::text::push_all(
        &mut out,
        &crate::bytes::le32_octets((request_id / 0x1_0000_0000) as u32),
    );
    crate::text::push_all(&mut out, payload);
    assert(out@ =~= message_bytes(kind, request_id, payload@));
    Ok(out)
}

/// Why `bytes` is not a message, if it is not.
pub open spec fn decode_error(bytes: Seq<u8>) -> Option<ControlError> {
    if bytes.len() < HEADER_LEN || bytes.take(4) != magic() {
        Some(ControlError::InvalidHeader)
    } else if le16(bytes, 4) != VERSION {
        Some(ControlError::UnsupportedVersion)
    } else if Kind::numbered(le16(bytes, 6)) is None {
        Some(ControlError::UnknownKind)
    } else if le32(bytes, 8) > MAX_PAYLOAD || HEADER_LEN + le32(bytes, 8) != bytes.len() {
        Some(ControlError::InvalidPayloadLength)
    } else {
        None
    }
}

pub fn decode(bytes: &[u8]) -> (result: Result<Message<'_>, ControlError>)
    ensures
        match result {
            Ok(message) => {
                &&& decode_error(bytes@) is None
                &&& Some(message.kind) == Kind::numbered(le16(bytes@, 6))
                &&& message.request_id == le64(bytes@, 12)
                &&& message.payload@ == bytes@.skip(HEADER_LEN as int)
            },
            Err(error) => decode_error(bytes@) == Some(error),
        },
{
    let size: usize = bytes.len();
    if size < HEADER_LEN {
        return Err(ControlError::InvalidHeader);
    }
    let expected = [89, 65, 89, 65];
    assert(expected@ =~= magic());
    let start = vstd::slice::slice_subrange(bytes, 0, 4);
    assert(start@ =~= bytes@.take(4));
    if !crate::bytes::equal(start, &expected) {
        return Err(ControlError::InvalidHeader);
    }
    if crate::bytes::read_le16(bytes, 4) != VERSION {
        return Err(ControlError::UnsupportedVersion);
    }
    let kind = match Kind::from_raw(crate::bytes::read_le16(bytes, 6)) {
        Some(kind) => kind,
        None => return Err(ControlError::UnknownKind),
    };
    let length: u32 = crate::bytes::read_le32(bytes, 8);
    if length > 4096 || HEADER_LEN + length as usize != size {
        return Err(ControlError::InvalidPayloadLength);
    }
    let request_id: u64 = crate::bytes::read_le64(bytes, 12);
    let payload = vstd::slice::slice_subrange(bytes, HEADER_LEN, size);
    assert(payload@ =~= bytes@.skip(HEADER_LEN as int));
    Ok(Message { kind, request_id, payload })
}

/// What is encoded is decoded: the kind, the request and the payload.
pub proof fn law_message_round_trip(kind: Kind, request_id: u64, payload: Seq<u8>)
    requires
        payload.len() <= MAX_PAYLOAD,
    ensures
        ({
            let bytes = message_bytes(kind, request_id, payload);
            &&& decode_error(bytes) is None
            &&& Kind::numbered(le16(bytes, 6)) == Some(kind)
            &&& le64(bytes, 12) == request_id
            &&& bytes.skip(HEADER_LEN as int) == payload
        }),
{
    let bytes = message_bytes(kind, request_id, payload);
    let version = le16_bytes(VERSION);
    let number = le16_bytes(kind.number());
    let length = le32_bytes(payload.len() as u32);
    let request = le64_bytes(request_id);
    assert(bytes.take(4) =~= magic());
    assert(bytes[4] == version[0] && bytes[5] == version[1]);
    assert(bytes[6] == number[0] && bytes[7] == number[1]);
    assert(bytes[8] == length[0] && bytes[9] == length[1] && bytes[10] == length[2] && bytes[11]
        == length[3]);
    assert(le32(bytes, 8) == payload.len());
    assert forall|i: int| 0 <= i < 8 implies bytes[12 + i] == #[trigger] request[i] by {}
    assert(bytes[12] == request[0] && bytes[13] == request[1] && bytes[14] == request[2]
        && bytes[15] == request[3]);
    assert(bytes[16] == request[4] && bytes[17] == request[5] && bytes[18] == request[6]
        && bytes[19] == request[7]);
    assert(le32(bytes, 12) == request_id % 0x1_0000_0000);
    assert(le32(bytes, 16) == request_id / 0x1_0000_0000);
    assert(bytes.skip(HEADER_LEN as int) =~= payload);
}

/// What the data plane does about a control message.
#[derive(Clone, Copy, Debug, PartialEq, Eq, Structural)]
pub enum ControlAction {
    Nothing,
    /// It stops once its flows are gone.
    Shutdown,
    /// It answers with its counters.
    Report { request_id: u64 },
}

#[must_use]
pub fn control_action(kind: Kind, request_id: u64) -> (action: ControlAction)
    ensures
        action == match kind {
            Kind::Shutdown => ControlAction::Shutdown,
            Kind::Status => ControlAction::Report { request_id },
            _ => ControlAction::Nothing,
        },
{
    match kind {
        Kind::Shutdown => ControlAction::Shutdown,
        Kind::Status => ControlAction::Report { request_id },
        _ => ControlAction::Nothing,
    }
}

/// The kinds are numbered from one to seven, and no other number is a kind.
pub proof fn law_kinds_are_numbered(raw: u16, kind: Kind)
    ensures
        Kind::numbered(kind.number()) == Some(kind),
        Kind::numbered(raw) is Some <==> 1 <= raw <= 7,
        Kind::numbered(raw) is Some ==> Kind::numbered(raw)->0.number() == raw,
        Kind::MapsReady.number() == 1,
        Kind::Ready.number() == 2,
        Kind::Exec.number() == 3,
        Kind::Shutdown.number() == 4,
        Kind::Exit.number() == 5,
        Kind::Error.number() == 6,
        Kind::Status.number() == 7,
{
}

/// A message is `YAYA`, the version one, its kind, the length of its payload and
/// the number of its request, each with the lowest octet first, and the payload.
pub proof fn law_message_has_its_form(kind: Kind, request_id: u64, payload: Seq<u8>)
    requires
        payload.len() <= 4096,
    ensures
        ({
            let message = message_bytes(kind, request_id, payload);
            &&& message.len() == 20 + payload.len()
            &&& message.take(4) == seq![89u8, 65, 89, 65]
            &&& message[4] == 1 && message[5] == 0
            &&& message[6] == kind.number() && message[7] == 0
            &&& message[8] + 256 * message[9] == payload.len()
            &&& message[10] == 0 && message[11] == 0
            &&& message.subrange(12, 20) == le64_bytes(request_id)
            &&& message.skip(20) == payload
        }),
{
    let message = message_bytes(kind, request_id, payload);
    assert(message.take(4) =~= seq![89u8, 65, 89, 65]);
    assert(message.subrange(12, 20) =~= le64_bytes(request_id));
    assert(message.skip(20) =~= payload);
    let length = le32_bytes(payload.len() as u32);
    assert(message[8] == length[0] && message[9] == length[1] && message[10] == length[2]
        && message[11] == length[3]);
}

/// Octets are a message exactly when they start with `YAYA`, version one and a
/// kind, and the length that they state is theirs and at most 4096.
pub proof fn law_message_acceptance(bytes: Seq<u8>)
    ensures
        decode_error(bytes) is None <==> {
            &&& bytes.len() >= 20
            &&& bytes[0] == 89 && bytes[1] == 65 && bytes[2] == 89 && bytes[3] == 65
            &&& bytes[4] == 1 && bytes[5] == 0
            &&& 1 <= bytes[6] <= 7 && bytes[7] == 0
            &&& bytes[8] + 256 * bytes[9] == bytes.len() - 20
            &&& bytes[10] == 0 && bytes[11] == 0
            &&& bytes.len() <= 4116
        },
        decode_error(bytes) == Some(ControlError::UnsupportedVersion) ==> bytes[4] != 1 || bytes[5]
            != 0,
        decode_error(bytes) == Some(ControlError::UnknownKind) ==> bytes[7] != 0 || bytes[6] == 0
            || bytes[6] > 7,
{
    if bytes.len() >= 20 {
        crate::bytes::law_octet_orders(bytes, 4, 0, 0);
        crate::bytes::law_octet_orders(bytes, 6, 0, 0);
        crate::bytes::law_octet_orders(bytes, 8, 0, 0);
        crate::bytes::law_octet_orders(bytes, 10, 0, 0);
        let front = bytes.take(4);
        if bytes[0] == 89 && bytes[1] == 65 && bytes[2] == 89 && bytes[3] == 65 {
            assert(front =~= magic());
        } else {
            assert(front[0] == bytes[0] && front[1] == bytes[1] && front[2] == bytes[2]
                && front[3] == bytes[3]);
            assert(magic()[0] == 89 && magic()[1] == 65 && magic()[2] == 89 && magic()[3] == 65);
        }
    }
}

} // verus!
