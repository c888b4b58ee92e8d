//! Legacy `virtio_net_hdr` prefix carried on every TAP frame when the device
//! is opened with `IFF_VNET_HDR` (Linux `linux/virtio_net.h`). The TUN
//! interface exchanges the header in native endianness.

use super::PacketError;
use crate::bytes::{ne16, ne16_bytes};
use vstd::prelude::*;

verus! {

pub const VNET_HEADER_LEN: usize = 10;

/// Checksum starts at `csum_start` and the complement goes to
/// `csum_start + csum_offset`; only a pseudo-header sum is filled in.
pub const FLAG_NEEDS_CSUM: u8 = 1;

/// The checksum was already verified by the sending kernel.
pub const FLAG_DATA_VALID: u8 = 2;

pub const GSO_NONE: u8 = 0;
pub const GSO_TCPV4: u8 = 1;
pub const GSO_TCPV6: u8 = 4;

#[derive(Clone, Copy, Debug, PartialEq, Eq, Structural)]
pub struct VnetHeader {
    pub flags: u8,
    pub gso_type: u8,
    pub hdr_len: u16,
    pub gso_size: u16,
    pub csum_start: u16,
    pub csum_offset: u16,
}

impl Default for VnetHeader {
    fn default() -> (header: VnetHeader)
        ensures
            header == VnetHeader::zero(),
    {
        VnetHeader {
            flags: 0,
            gso_type: 0,
            hdr_len: 0,
            gso_size: 0,
            csum_start: 0,
            csum_offset: 0,
        }
    }
}

/// The header that the octets of `s` hold.
pub open spec fn vnet_header(s: Seq<u8>) -> VnetHeader {
    VnetHeader {
        flags: s[0],
        gso_type: s[1],
        hdr_len: ne16(s, 2),
        gso_size: ne16(s, 4),
        csum_start: ne16(s, 6),
        csum_offset: ne16(s, 8),
    }
}

impl VnetHeader {
    pub open spec fn zero() -> VnetHeader {
        VnetHeader {
            flags: 0,
            gso_type: 0,
            hdr_len: 0,
            gso_size: 0,
            csum_start: 0,
            csum_offset: 0,
        }
    }

    /// The ten octets of the header.
    pub open spec fn octets(self) -> Seq<u8> {
        seq![self.flags, self.gso_type] + ne16_bytes(self.hdr_len) + ne16_bytes(self.gso_size)
            + ne16_bytes(self.csum_start) + ne16_bytes(self.csum_offset)
    }

    /// No offload state: complete checksums and no segmentation.
    pub open spec fn plain(self) -> bool {
        self.gso_type == GSO_NONE && (self.flags == 0 || self.flags == FLAG_DATA_VALID)
    }

    pub fn parse(bytes: &[u8]) -> (result: Result<VnetHeader, PacketError>)
        ensures
            match result {
                Ok(header) => bytes@.len() >= VNET_HEADER_LEN && header == vnet_header(bytes@),
                Err(error) => bytes@.len() < VNET_HEADER_LEN && error == PacketError::Truncated,
            },
    {
        if bytes.len() < VNET_HEADER_LEN {
            return Err(PacketError::Truncated);
        }
        Ok(
            VnetHeader {
                flags: bytes[0],
                gso_type: bytes[1],
                hdr_len: crate::bytes::read_ne16(bytes, 2),
                gso_size: crate::bytes::read_ne16(bytes, 4),
                csum_start: crate::bytes::read_ne16(bytes, 6),
                csum_offset: crate::bytes::read_ne16(bytes, 8),
            },
        )
    }

    pub fn write(&self, out: &mut [u8]) -> (result: Result<(), PacketError>)
        ensures
            match result {
                Ok(()) => {
                    &&& old(out)@.len() >= VNET_HEADER_LEN
                    &&& final(out)@ == self.octets() + old(out)@.skip(VNET_HEADER_LEN as int)
                },
                Err(error) => {
                    &&& old(out)@.len() < VNET_HEADER_LEN
                    &&& error == PacketError::Truncated
                    &&& final(out)@ == old(out)@
                },
            },
    {
        if out.len() < VNET_HEADER_LEN {
            return Err(PacketError::Truncated);
        }
        let ghost before = out@;
        let hdr_len = crate::bytes::ne16_octets(self.hdr_len);
        let gso_size = crate::bytes::ne16_octets(self.gso_size);
        let csum_start = crate::bytes::ne16_octets(self.csum_start);
        let csum_offset = crate::bytes::ne16_octets(self.csum_offset);
        let octets = [
            self.flags,
            self.gso_type,
            hdr_len[0],
            hdr_len[1],
            gso_size[0],
            gso_size[1],
            csum_start[0],
            csum_start[1],
            csum_offset[0],
            csum_offset[1],
        ];
        assert(octets@ =~= self.octets());
        crate::bytes::put(out, 0, &octets);
        assert(out@ =~= self.octets() + before.skip(VNET_HEADER_LEN as int));
        Ok(())
    }

    /// A frame that carries no offload state. `DATA_VALID` only asserts that
    /// the checksum was verified, so the frame body still parses like a plain
    /// frame.
    #[must_use]
    pub fn is_plain(&self) -> (plain: bool)
        ensures
            plain == self.plain(),
    {
        self.gso_type == GSO_NONE && (self.flags == 0 || self.flags == FLAG_DATA_VALID)
    }
}

/// A header survives being written and parsed, on a machine of either byte
/// order.
pub proof fn law_header_round_trip(header: VnetHeader, rest: Seq<u8>)
    ensures
        vnet_header(header.octets() + rest) == header,
{
    let s = header.octets() + rest;
    let hdr_len = ne16_bytes(header.hdr_len);
    let gso_size = ne16_bytes(header.gso_size);
    let csum_start = ne16_bytes(header.csum_start);
    let csum_offset = ne16_bytes(header.csum_offset);
    assert(s[2] == hdr_len[0] && s[3] == hdr_len[1]);
    assert(s[4] == gso_size[0] && s[5] == gso_size[1]);
    assert(s[6] == csum_start[0] && s[7] == csum_start[1]);
    assert(s[8] == csum_offset[0] && s[9] == csum_offset[1]);
}

/// A prefix says nothing exactly where it asks for no segmentation, and for no
/// checksum either, whether or not one was verified.
pub proof fn law_plain_prefix(header: VnetHeader)
    ensures
        header.plain() <==> header.gso_type == 0 && (header.flags == 0 || header.flags == 2),
        header.octets().len() == 10,
        header.octets()[0] == header.flags,
        header.octets()[1] == header.gso_type,
{
}

} // verus!
