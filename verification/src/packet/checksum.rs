//! The Internet checksum.

use crate::bytes::{be16, be16_bytes, splice};
use vstd::prelude::*;

verus! {

/// The sum of the big-endian 16-bit words of `s`; a last odd octet counts as
/// the high half of a word.
pub open spec fn word_sum(s: Seq<u8>) -> nat
    decreases s.len(),
{
    if s.len() >= 2 {
        be16(s, 0) as nat + word_sum(s.skip(2))
    } else if s.len() == 1 {
        (s[0] * 0x100) as nat
    } else {
        0
    }
}

/// The ones' complement sum that `sum` stands for: the representative of
/// `sum` modulo `0xffff` which is zero only for zero itself.
pub open spec fn ones_sum(sum: nat) -> u16 {
    if sum == 0 {
        0
    } else {
        ((sum - 1) % 0xffff + 1) as u16
    }
}

/// The checksum of a sum of words: the complement of its ones' complement sum.
pub open spec fn complement(sum: nat) -> u16 {
    (0xffff - ones_sum(sum)) as u16
}

/// The Internet checksum of `s`.
pub open spec fn checksum_of(s: Seq<u8>) -> u16 {
    complement(word_sum(s))
}

/// The sum of the words of the IPv4 pseudo header.
pub open spec fn ipv4_pseudo_sum(src: Seq<u8>, dst: Seq<u8>, protocol: u8, length: u32) -> nat {
    word_sum(src) + word_sum(dst) + protocol as nat + length as nat
}

/// The sum of the words of the IPv6 pseudo header.
pub open spec fn ipv6_pseudo_sum(src: Seq<u8>, dst: Seq<u8>, protocol: u8, length: u32) -> nat {
    word_sum(src) + word_sum(dst) + (length / 0x1_0000) as nat + (length % 0x1_0000) as nat
        + protocol as nat
}

/// The sum over an IPv4 pseudo header and the transport octets behind it.
pub open spec fn ipv4_transport_sum(src: Seq<u8>, dst: Seq<u8>, protocol: u8, s: Seq<u8>) -> nat {
    ipv4_pseudo_sum(src, dst, protocol, s.len() as u32) + word_sum(s)
}

/// The sum over an IPv6 pseudo header and the transport octets behind it.
pub open spec fn ipv6_transport_sum(src: Seq<u8>, dst: Seq<u8>, protocol: u8, s: Seq<u8>) -> nat {
    ipv6_pseudo_sum(src, dst, protocol, s.len() as u32) + word_sum(s)
}

/// Each word is below `0x1_0000`, so a sum of words is bounded by the length.
pub proof fn lemma_word_sum_bound(s: Seq<u8>)
    ensures
        word_sum(s) <= 0x8000 * (s.len() + 1),
    decreases s.len(),
{
    if s.len() >= 2 {
        lemma_word_sum_bound(s.skip(2));
    }
}

/// An even-length prefix contributes its own words.
pub proof fn lemma_word_sum_concat(a: Seq<u8>, b: Seq<u8>)
    requires
        a.len() % 2 == 0,
    ensures
        word_sum(a + b) == word_sum(a) + word_sum(b),
    decreases a.len(),
{
    if a.len() == 0 {
        assert(a + b =~= b);
    } else {
        assert((a + b).skip(2) =~= a.skip(2) + b);
        lemma_word_sum_concat(a.skip(2), b);
    }
}

/// Replacing the word at an even offset changes the sum by the difference of
/// the words.
pub proof fn lemma_word_sum_splice(s: Seq<u8>, at: int, word: u16)
    requires
        0 <= at,
        at % 2 == 0,
        at + 2 <= s.len(),
    ensures
        word_sum(splice(s, at, be16_bytes(word))) + be16(s, at) == word_sum(s) + word,
{
    let head = s.subrange(0, at);
    let old_word = s.subrange(at, at + 2);
    let tail = s.subrange(at + 2, s.len() as int);
    assert(s =~= head + (old_word + tail));
    assert(splice(s, at, be16_bytes(word)) =~= head + (be16_bytes(word) + tail));
    lemma_word_sum_concat(head, old_word + tail);
    lemma_word_sum_concat(head, be16_bytes(word) + tail);
    lemma_word_sum_concat(old_word, tail);
    lemma_word_sum_concat(be16_bytes(word), tail);
    lemma_word_sum_pair(old_word);
    lemma_word_sum_pair(be16_bytes(word));
}

proof fn lemma_word_sum_pair(s: Seq<u8>)
    requires
        s.len() == 2,
    ensures
        word_sum(s) == be16(s, 0),
{
    assert(s.skip(2).len() == 0);
    assert(word_sum(s.skip(2)) == 0);
}

/// A sum that holds its own complement verifies: the checksum over data whose
/// checksum field was filled in is zero.
pub proof fn lemma_complement_verifies(sum: nat)
    ensures
        complement(sum + complement(sum) as nat) == 0,
{
    let r = ones_sum(sum) as int;
    let total = sum + complement(sum);
    if sum > 0 {
        vstd::arithmetic::div_mod::lemma_fundamental_div_mod((sum - 1) as int, 0xffff);
        let q = (sum - 1) / 0xffff;
        assert(sum - 1 == 0xffff * q + (sum - 1) % 0xffff);
        assert(total == 0xffff * q + 0xffff);
        assert(total - 1 == 0xffff * q + 0xfffe);
        vstd::arithmetic::div_mod::lemma_fundamental_div_mod_converse(
            total - 1,
            0xffff,
            q,
            0xfffe,
        );
    }
}

/// The sum that all-ones stands for is the one that zero checks as: adding a
/// whole `0xffff` to a non-zero sum leaves the checksum unchanged.
pub proof fn lemma_complement_period(sum: nat)
    requires
        sum > 0,
    ensures
        complement(sum + 0xffff) == complement(sum),
{
    vstd::arithmetic::div_mod::lemma_mod_add_multiples_vanish((sum - 1) as int, 0xffff);
}

/// A sum and its ones' complement sum count alike in a larger sum.
pub proof fn lemma_ones_sum_absorbs(rest: nat, sum: nat)
    ensures
        complement(rest + ones_sum(sum) as nat) == complement(rest + sum),
{
    if sum > 0 {
        vstd::arithmetic::div_mod::lemma_fundamental_div_mod((sum - 1) as int, 0xffff);
        let q = (sum - 1) / 0xffff;
        assert(rest + sum - 1 == 0xffff * q + (rest + ones_sum(sum) - 1));
        vstd::arithmetic::div_mod::lemma_mod_multiples_vanish(
            q,
            rest + ones_sum(sum) - 1,
            0xffff,
        );
    }
}

/// Sums the words of `bytes` onto `sum`.
pub fn sum_words(sum: u32, bytes: &[u8]) -> (total: u32)
    requires
        sum + word_sum(bytes@) <= u32::MAX,
    ensures
        total == sum + word_sum(bytes@),
{
    let mut total: u32 = sum;
    let mut at: usize = 0;
    assert(bytes@.skip(0) =~= bytes@);
    while bytes.len() - at >= 2
        invariant
            at <= bytes@.len(),
            total + word_sum(bytes@.skip(at as int)) == sum + word_sum(bytes@),
            sum + word_sum(bytes@) <= u32::MAX,
        decreases bytes@.len() - at,
    {
        assert(bytes@.skip(at as int).skip(2) =~= bytes@.skip(at + 2));
        total = total + crate::bytes::read_be16(bytes, at) as u32;
        at = at + 2;
    }
    if at < bytes.len() {
        total = total + (bytes[at] as u32) * 0x100;
    }
    total
}

/// Folds a sum of words into its checksum.
pub fn fold(sum: u32) -> (value: u16)
    ensures
        value == complement(sum as nat),
{
    let mut rest: u32 = sum;
    while rest / 0x1_0000 != 0
        invariant
            ones_sum(rest as nat) == ones_sum(sum as nat),
        decreases rest,
    {
        proof {
            let q = (rest / 0x1_0000) as int;
            let next = rest % 0x1_0000 + rest / 0x1_0000;
            assert(rest == next + 0xffff * q);
            assert((rest - 1) % 0xffff == (next - 1) % 0xffff) by {
                vstd::arithmetic::div_mod::lemma_mod_multiples_vanish(q, next - 1, 0xffff);
            }
        }
        rest = rest % 0x1_0000 + rest / 0x1_0000;
    }
    (0xffff - rest) as u16
}

/// The Internet checksum of `bytes`.
pub fn checksum(bytes: &[u8]) -> (value: u16)
    requires
        word_sum(bytes@) <= u32::MAX,
    ensures
        value == checksum_of(bytes@),
{
    fold(sum_words(0, bytes))
}

/// The checksum of `bytes` behind their IPv4 pseudo header.
pub fn ipv4_transport(src: [u8; 4], dst: [u8; 4], protocol: u8, bytes: &[u8]) -> (value: u16)
    requires
        ipv4_transport_sum(src@, dst@, protocol, bytes@) <= u32::MAX,
    ensures
        value == complement(ipv4_transport_sum(src@, dst@, protocol, bytes@)),
{
    let mut sum: u32 = sum_words(0, &src);
    sum = sum_words(sum, &dst);
    sum = sum + protocol as u32;
    sum = sum + bytes.len() as u32;
    fold(sum_words(sum, bytes))
}

/// The checksum of `bytes` behind their IPv6 pseudo header.
pub fn ipv6_transport(src: [u8; 16], dst: [u8; 16], protocol: u8, bytes: &[u8]) -> (value: u16)
    requires
        ipv6_transport_sum(src@, dst@, protocol, bytes@) <= u32::MAX,
    ensures
        value == complement(ipv6_transport_sum(src@, dst@, protocol, bytes@)),
{
    let mut sum: u32 = sum_words(0, &src);
    sum = sum_words(sum, &dst);
    let length: u32 = bytes.len() as u32;
    sum = sum + length / 0x1_0000 + length % 0x1_0000;
    sum = sum + protocol as u32;
    fold(sum_words(sum, bytes))
}

/// Octets are summed in pairs, the first one high; a last one alone is high too.
pub proof fn law_words_are_pairs_of_octets(a: u8, b: u8, rest: Seq<u8>)
    ensures
        word_sum(Seq::<u8>::empty()) == 0,
        word_sum(seq![a]) == 256 * a,
        word_sum(seq![a, b] + rest) == 256 * a + b + word_sum(rest),
{
    assert((seq![a, b] + rest).skip(2) =~= rest);
}

/// Data verifies exactly where its words sum to a multiple of 0xffff that is not
/// zero, and the checksum of a sum is what completes it to one.
pub proof fn law_checksum_completes_the_sum(sum: nat)
    ensures
        complement(sum) == 0 <==> sum > 0 && sum % 0xffff == 0,
        sum > 0 ==> (sum + complement(sum)) % 0xffff == 0,
        complement(0) == 0xffff,
{
}

/// The pseudo header is both addresses, the protocol, and the length of what follows.
pub proof fn law_pseudo_header_is_summed(
    src: Seq<u8>,
    dst: Seq<u8>,
    protocol: u8,
    length: u32,
    s: Seq<u8>,
)
    requires
        s.len() == length,
        length < 0x1_0000,
    ensures
        ipv4_transport_sum(src, dst, protocol, s) == word_sum(src) + word_sum(dst) + protocol
            + length + word_sum(s),
        ipv6_transport_sum(src, dst, protocol, s) == word_sum(src) + word_sum(dst) + protocol
            + length + word_sum(s),
{
}

} // verus!
