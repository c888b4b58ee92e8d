//! Byte-level helpers shared by every wire format.

use vstd::prelude::*;

verus! {

/// The big-endian 16-bit value at `at`.
pub open spec fn be16(s: Seq<u8>, at: int) -> u16 {
    (s[at] * 0x100 + s[at + 1]) as u16
}

/// The big-endian 32-bit value at `at`.
pub open spec fn be32(s: Seq<u8>, at: int) -> u32 {
    (s[at] * 0x100_0000 + s[at + 1] * 0x1_0000 + s[at + 2] * 0x100 + s[at + 3]) as u32
}

/// The two octets of `v`, most significant first.
pub open spec fn be16_bytes(v: u16) -> Seq<u8> {
    seq![(v / 0x100) as u8, (v % 0x100) as u8]
}

/// The four octets of `v`, most significant first.
pub open spec fn be32_bytes(v: u32) -> Seq<u8> {
    seq![
        (v / 0x100_0000) as u8,
        (v / 0x1_0000 % 0x100) as u8,
        (v / 0x100 % 0x100) as u8,
        (v % 0x100) as u8,
    ]
}

/// The little-endian 16-bit value at `at`.
pub open spec fn le16(s: Seq<u8>, at: int) -> u16 {
    (s[at] + s[at + 1] * 0x100) as u16
}

/// The little-endian 32-bit value at `at`.
pub open spec fn le32(s: Seq<u8>, at: int) -> u32 {
    (s[at] + s[at + 1] * 0x100 + s[at + 2] * 0x1_0000 + s[at + 3] * 0x100_0000) as u32
}

/// The two octets of `v`, least significant first.
pub open spec fn le16_bytes(v: u16) -> Seq<u8> {
    seq![(v % 0x100) as u8, (v / 0x100) as u8]
}

/// The four octets of `v`, least significant first.
pub open spec fn le32_bytes(v: u32) -> Seq<u8> {
    seq![
        (v % 0x100) as u8,
        (v / 0x100 % 0x100) as u8,
        (v / 0x1_0000 % 0x100) as u8,
        (v / 0x100_0000) as u8,
    ]
}

/// The little-endian 64-bit value at `at`.
pub open spec fn le64(s: Seq<u8>, at: int) -> u64 {
    (le32(s, at) + le32(s, at + 4) * 0x1_0000_0000) as u64
}

/// The eight octets of `v`, least significant first.
pub open spec fn le64_bytes(v: u64) -> Seq<u8> {
    le32_bytes((v % 0x1_0000_0000) as u32) + le32_bytes((v / 0x1_0000_0000) as u32)
}

/// The 16-bit value at `at`, in the byte order of the machine.
pub open spec fn ne16(s: Seq<u8>, at: int) -> u16 {
    match vstd::endian::endianness() {
        vstd::endian::Endian::Little => le16(s, at),
        vstd::endian::Endian::Big => be16(s, at),
    }
}

/// The 32-bit value at `at`, in the byte order of the machine.
pub open spec fn ne32(s: Seq<u8>, at: int) -> u32 {
    match vstd::endian::endianness() {
        vstd::endian::Endian::Little => le32(s, at),
        vstd::endian::Endian::Big => be32(s, at),
    }
}

/// The two octets of `v`, in the byte order of the machine.
pub open spec fn ne16_bytes(v: u16) -> Seq<u8> {
    match vstd::endian::endianness() {
        vstd::endian::Endian::Little => le16_bytes(v),
        vstd::endian::Endian::Big => be16_bytes(v),
    }
}

/// The four octets of `v`, in the byte order of the machine.
pub open spec fn ne32_bytes(v: u32) -> Seq<u8> {
    match vstd::endian::endianness() {
        vstd::endian::Endian::Little => le32_bytes(v),
        vstd::endian::Endian::Big => be32_bytes(v),
    }
}

/// `s` with the octets from `at` on replaced by `new`.
pub open spec fn splice(s: Seq<u8>, at: int, new: Seq<u8>) -> Seq<u8> {
    s.subrange(0, at) + new + s.subrange(at + new.len(), s.len() as int)
}

/// `n` zero octets.
pub open spec fn zeros(n: nat) -> Seq<u8> {
    Seq::new(n, |i: int| 0u8)
}

/// Octets written most significant first read back as the value.
pub proof fn lemma_be16_round_trip(v: u16)
    ensures
        be16(be16_bytes(v), 0) == v,
{
}

/// Octets written most significant first read back as the value.
pub proof fn lemma_be32_round_trip(v: u32)
    ensures
        be32(be32_bytes(v), 0) == v,
{
}

/// Octets written in the order of the machine read back as the value.
pub proof fn lemma_ne16_at(s: Seq<u8>, at: int, v: u16)
    requires
        0 <= at,
        at + 2 <= s.len(),
        s.subrange(at, at + 2) == ne16_bytes(v),
    ensures
        ne16(s, at) == v,
{
    let part = s.subrange(at, at + 2);
    assert(s[at] == part[0] && s[at + 1] == part[1]);
}

/// Octets written in the order of the machine read back as the value.
pub proof fn lemma_ne32_at(s: Seq<u8>, at: int, v: u32)
    requires
        0 <= at,
        at + 4 <= s.len(),
        s.subrange(at, at + 4) == ne32_bytes(v),
    ensures
        ne32(s, at) == v,
{
    let part = s.subrange(at, at + 4);
    assert(s[at] == part[0] && s[at + 1] == part[1] && s[at + 2] == part[2] && s[at + 3]
        == part[3]);
}

pub fn read_be16(bytes: &[u8], at: usize) -> (v: u16)
    requires
        at + 1 < bytes@.len(),
    ensures
        v == be16(bytes@, at as int),
{
    (bytes[at] as u16) * 0x100 + (bytes[at + 1] as u16)
}

pub fn read_be32(bytes: &[u8], at: usize) -> (v: u32)
    requires
        at + 3 < bytes@.len(),
    ensures
        v == be32(bytes@, at as int),
{
    (bytes[at] as u32) * 0x100_0000 + (bytes[at + 1] as u32) * 0x1_0000 + (bytes[at + 2] as u32)
        * 0x100 + (bytes[at + 3] as u32)
}

pub fn read_le16(bytes: &[u8], at: usize) -> (v: u16)
    requires
        at + 1 < bytes@.len(),
    ensures
        v == le16(bytes@, at as int),
{
    (bytes[at] as u16) + (bytes[at + 1] as u16) * 0x100
}

pub fn read_le32(bytes: &[u8], at: usize) -> (v: u32)
    requires
        at + 3 < bytes@.len(),
    ensures
        v == le32(bytes@, at as int),
{
    (bytes[at] as u32) + (bytes[at + 1] as u32) * 0x100 + (bytes[at + 2] as u32) * 0x1_0000 + (
    bytes[at + 3] as u32) * 0x100_0000
}

pub fn read_le64(bytes: &[u8], at: usize) -> (v: u64)
    requires
        at + 7 < bytes@.len(),
    ensures
        v == le64(bytes@, at as int),
{
    let size: usize = bytes.len();
    assert(at < size);
    read_le32(bytes, at) as u64 + read_le32(bytes, at + 4) as u64 * 0x1_0000_0000
}

pub fn le16_octets(v: u16) -> (octets: [u8; 2])
    ensures
        octets@ == le16_bytes(v),
{
    let octets = [(v % 0x100) as u8, (v / 0x100) as u8];
    assert(octets@ =~= le16_bytes(v));
    octets
}

pub fn le32_octets(v: u32) -> (octets: [u8; 4])
    ensures
        octets@ == le32_bytes(v),
{
    let octets = [
        (v % 0x100) as u8,
        (v / 0x100 % 0x100) as u8,
        (v / 0x1_0000 % 0x100) as u8,
        (v / 0x100_0000) as u8,
    ];
    assert(octets@ =~= le32_bytes(v));
    octets
}

pub fn be16_octets(v: u16) -> (octets: [u8; 2])
    ensures
        octets@ == be16_bytes(v),
{
    let octets = [(v / 0x100) as u8, (v % 0x100) as u8];
    assert(octets@ =~= be16_bytes(v));
    octets
}

pub fn be32_octets(v: u32) -> (octets: [u8; 4])
    ensures
        octets@ == be32_bytes(v),
{
    let octets = [
        (v / 0x100_0000) as u8,
        (v / 0x1_0000 % 0x100) as u8,
        (v / 0x100 % 0x100) as u8,
        (v % 0x100) as u8,
    ];
    assert(octets@ =~= be32_bytes(v));
    octets
}

/// Calls `u16::from_ne_bytes`: the value whose octets in memory are `octets`,
/// so the little- or the big-endian value, as the machine has it.
#[verifier::external_body]
fn u16_from_native(octets: [u8; 2]) -> (v: u16)
    ensures
        v == ne16(octets@, 0),
{
    u16::from_ne_bytes(octets)
}

/// Calls `u16::to_ne_bytes`: the octets of `v` in memory, least or most
/// significant first, as the machine has them.
#[verifier::external_body]
pub(crate) fn ne16_octets(v: u16) -> (octets: [u8; 2])
    ensures
        octets@ == ne16_bytes(v),
{
    v.to_ne_bytes()
}

/// Calls `u32::from_ne_bytes`: the value whose octets in memory are `octets`,
/// so the little- or the big-endian value, as the machine has it.
#[verifier::external_body]
fn u32_from_native(octets: [u8; 4]) -> (v: u32)
    ensures
        v == ne32(octets@, 0),
{
    u32::from_ne_bytes(octets)
}

/// Calls `u32::to_ne_bytes`: the octets of `v` in memory, least or most
/// significant first, as the machine has them.
#[verifier::external_body]
pub(crate) fn ne32_octets(v: u32) -> (octets: [u8; 4])
    ensures
        octets@ == ne32_bytes(v),
{
    v.to_ne_bytes()
}

pub fn read_ne16(bytes: &[u8], at: usize) -> (v: u16)
    requires
        at + 1 < bytes@.len(),
    ensures
        v == ne16(bytes@, at as int),
{
    u16_from_native([bytes[at], bytes[at + 1]])
}

pub fn read_ne32(bytes: &[u8], at: usize) -> (v: u32)
    requires
        at + 3 < bytes@.len(),
    ensures
        v == ne32(bytes@, at as int),
{
    u32_from_native([bytes[at], bytes[at + 1], bytes[at + 2], bytes[at + 3]])
}

/// Overwrites `out` from `at` on with `bytes`.
pub fn put(out: &mut [u8], at: usize, bytes: &[u8])
    requires
        at + bytes@.len() <= old(out)@.len(),
    ensures
        final(out)@ == splice(old(out)@, at as int, bytes@),
{
    let ghost before = out@;
    let size: usize = out.len();
    let length: usize = bytes.len();
    let mut i: usize = 0;
    while i < length
        invariant
            i <= length,
            length == bytes@.len(),
            at + length <= before.len(),
            out@.len() == before.len(),
            before.len() == size,
            forall|j: int| 0 <= j < before.len() ==> #[trigger] out@[j] == if at <= j < at + i {
                bytes@[j - at]
            } else {
                before[j]
            },
        decreases length - i,
    {
        out[at + i] = bytes[i];
        i = i + 1;
    }
    assert(out@ =~= splice(before, at as int, bytes@));
}

/// Overwrites `count` octets of `out` from `at` on with zero.
pub fn clear(out: &mut [u8], at: usize, count: usize)
    requires
        at + count <= old(out)@.len(),
    ensures
        final(out)@ == splice(old(out)@, at as int, zeros(count as nat)),
{
    let ghost before = out@;
    let size: usize = out.len();
    let mut i: usize = 0;
    while i < count
        invariant
            i <= count,
            at + count <= before.len(),
            out@.len() == before.len(),
            before.len() == size,
            forall|j: int| 0 <= j < before.len() ==> #[trigger] out@[j] == if at <= j < at + i {
                0u8
            } else {
                before[j]
            },
        decreases count - i,
    {
        out[at + i] = 0;
        i = i + 1;
    }
    assert(out@ =~= splice(before, at as int, zeros(count as nat)));
}

pub fn take4(bytes: &[u8], at: usize) -> (out: [u8; 4])
    requires
        at + 4 <= bytes@.len(),
    ensures
        out@ == bytes@.subrange(at as int, at + 4),
{
    let out = [bytes[at], bytes[at + 1], bytes[at + 2], bytes[at + 3]];
    assert(out@ =~= bytes@.subrange(at as int, at + 4));
    out
}

pub fn take6(bytes: &[u8], at: usize) -> (out: [u8; 6])
    requires
        at + 6 <= bytes@.len(),
    ensures
        out@ == bytes@.subrange(at as int, at + 6),
{
    let out = [
        bytes[at],
        bytes[at + 1],
        bytes[at + 2],
        bytes[at + 3],
        bytes[at + 4],
        bytes[at + 5],
    ];
    assert(out@ =~= bytes@.subrange(at as int, at + 6));
    out
}

pub fn take16(bytes: &[u8], at: usize) -> (out: [u8; 16])
    requires
        at + 16 <= bytes@.len(),
    ensures
        out@ == bytes@.subrange(at as int, at + 16),
{
    let size: usize = bytes.len();
    let mut out = [0u8; 16];
    let mut i: usize = 0;
    while i < 16
        invariant
            i <= 16,
            at + 16 <= bytes@.len(),
            bytes@.len() == size,
            forall|j: int| 0 <= j < i ==> #[trigger] out@[j] == bytes@[at + j],
        decreases 16 - i,
    {
        out[i] = bytes[at + i];
        i = i + 1;
    }
    assert(out@ =~= bytes@.subrange(at as int, at + 16));
    out
}

/// Whether two byte strings hold the same octets.
pub fn equal(a: &[u8], b: &[u8]) -> (same: bool)
    ensures
        same == (a@ == b@),
{
    if a.len() != b.len() {
        return false;
    }
    let mut i: usize = 0;
    while i < a.len()
        invariant
            i <= a@.len(),
            a@.len() == b@.len(),
            forall|j: int| 0 <= j < i ==> a@[j] == b@[j],
        decreases a@.len() - i,
    {
        if a[i] != b[i] {
            return false;
        }
        i = i + 1;
    }
    assert(a@ =~= b@);
    true
}

/// Network order is most significant octet first, and the other order is its
/// mirror image.
pub proof fn law_octet_orders(s: Seq<u8>, at: int, v: u16, w: u32)
    ensures
        be16(s, at) == 256 * s[at] + s[at + 1],
        le16(s, at) == 256 * s[at + 1] + s[at],
        be32(s, at) == 65536 * be16(s, at) + be16(s, at + 2),
        le32(s, at) == 65536 * le16(s, at + 2) + le16(s, at),
        be16_bytes(v).len() == 2,
        le16_bytes(v) =~= be16_bytes(v).reverse(),
        be16_bytes(v)[0] * 256 + be16_bytes(v)[1] == v,
        be32_bytes(w).len() == 4,
        le32_bytes(w) =~= be32_bytes(w).reverse(),
        be32_bytes(w)[0] * 0x100_0000 + be32_bytes(w)[1] * 0x1_0000 + be32_bytes(w)[2] * 256
            + be32_bytes(w)[3] == w,
{
}

} // verus!
