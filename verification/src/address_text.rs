//! Addresses read from text.

use crate::net::IpAddress;
use crate::text::{
    all_digits, decimal, digits_value, groups, groups_text, hexadecimal, ip_text, ipv4_text, ipv6_text,
    longest_zeros, v4_mapped, zeros_from,
};
use vstd::prelude::*;

verus! {

/// The first place of `sep` in `s` from `at` on, or the end.
pub open spec fn place_of(s: Seq<u8>, sep: u8, at: int) -> int
    decreases s.len() - at,
{
    if 0 <= at < s.len() && s[at] != sep {
        place_of(s, sep, at + 1)
    } else {
        at
    }
}

/// The parts of `s` between the octets `sep`.
pub open spec fn parts(s: Seq<u8>, sep: u8) -> Seq<Seq<u8>>
    decreases s.len(),
    via parts_shrink
{
    let end = place_of(s, sep, 0);
    if end >= s.len() {
        seq![s]
    } else {
        seq![s.take(end)] + parts(s.skip(end + 1), sep)
    }
}

#[via_fn]
proof fn parts_shrink(s: Seq<u8>, sep: u8) {
    lemma_place_bounds(s, sep, 0);
}

/// The first place of a separator is no earlier, and only there it stands.
pub proof fn lemma_place_bounds(s: Seq<u8>, sep: u8, at: int)
    requires
        0 <= at <= s.len(),
    ensures
        at <= place_of(s, sep, at) <= s.len(),
        forall|i: int| at <= i < place_of(s, sep, at) ==> #[trigger] s[i] != sep,
        place_of(s, sep, at) < s.len() ==> s[place_of(s, sep, at)] == sep,
    decreases s.len() - at,
{
    if at < s.len() && s[at] != sep {
        lemma_place_bounds(s, sep, at + 1);
    }
}

/// One number of a dotted address: one to three digits, no needless zero in
/// front, at most 255.
pub open spec fn octet(s: Seq<u8>) -> Option<u8> {
    if 1 <= s.len() <= 3 && all_digits(s) && (s.len() == 1 || s[0] != 48) && digits_value(s)
        <= 255 {
        Some(digits_value(s) as u8)
    } else {
        None
    }
}

/// An IPv4 address in dotted decimal.
pub open spec fn ipv4_of(s: Seq<u8>) -> Option<Seq<u8>> {
    let all = parts(s, 46);
    if all.len() == 4 && octet(all[0]) is Some && octet(all[1]) is Some && octet(all[2]) is Some
        && octet(all[3]) is Some {
        Some(
            seq![
                octet(all[0])->0,
                octet(all[1])->0,
                octet(all[2])->0,
                octet(all[3])->0,
            ],
        )
    } else {
        None
    }
}

/// The value of a hexadecimal digit of either case.
pub open spec fn digit_of(b: u8) -> Option<nat> {
    if 48 <= b <= 57 {
        Some((b - 48) as nat)
    } else if 97 <= b <= 102 {
        Some((b - 87) as nat)
    } else if 65 <= b <= 70 {
        Some((b - 55) as nat)
    } else {
        None
    }
}

pub open spec fn all_hex(s: Seq<u8>) -> bool {
    forall|i: int| 0 <= i < s.len() ==> digit_of(#[trigger] s[i]) is Some
}

/// The value of hexadecimal digits, the first most significant.
pub open spec fn hex_value(s: Seq<u8>) -> nat
    decreases s.len(),
{
    if s.len() == 0 {
        0
    } else {
        hex_value(s.drop_last()) * 16 + digit_of(s.last())->0
    }
}

/// One group of an IPv6 address: one to four hexadecimal digits.
pub open spec fn group(s: Seq<u8>) -> Option<u16> {
    if 1 <= s.len() <= 4 && all_hex(s) {
        Some(hex_value(s) as u16)
    } else {
        None
    }
}

/// The groups of `all` from `at` on. The last part may be a dotted address,
/// which makes two groups, if `dotted` is set.
pub open spec fn group_values(all: Seq<Seq<u8>>, at: int, dotted: bool) -> Option<Seq<u16>>
    decreases all.len() - at,
{
    if at < 0 || at >= all.len() {
        Some(Seq::empty())
    } else if dotted && at == all.len() - 1 && ipv4_of(all[at]) is Some {
        let four = ipv4_of(all[at])->0;
        Some(seq![(four[0] * 256 + four[1]) as u16, (four[2] * 256 + four[3]) as u16])
    } else {
        match (group(all[at]), group_values(all, at + 1, dotted)) {
            (Some(value), Some(rest)) => Some(seq![value] + rest),
            _ => None,
        }
    }
}

/// The groups of `s`, which are separated by colons; none if it is empty.
pub open spec fn groups_of(s: Seq<u8>, dotted: bool) -> Option<Seq<u16>> {
    if s.len() == 0 {
        Some(Seq::empty())
    } else {
        group_values(parts(s, 58), 0, dotted)
    }
}

/// The first place from `at` on where two colons follow each other, or the end.
pub open spec fn gap_place(s: Seq<u8>, at: int) -> int
    decreases s.len() - at,
{
    if 0 <= at && at + 1 < s.len() && !(s[at] == 58 && s[at + 1] == 58) {
        gap_place(s, at + 1)
    } else if 0 <= at && at + 1 < s.len() {
        at
    } else {
        s.len() as int
    }
}

/// The octets of groups.
pub open spec fn group_octets(groups: Seq<u16>) -> Seq<u8> {
    Seq::new(
        2 * groups.len(),
        |i: int|
            if i % 2 == 0 {
                (groups[i / 2] / 256) as u8
            } else {
                (groups[i / 2] % 256) as u8
            },
    )
}

/// `count` groups of zero.
pub open spec fn zero_groups(count: int) -> Seq<u16> {
    Seq::new(count as nat, |i: int| 0u16)
}

/// An IPv6 address: eight groups, of which one or more may be left out at a
/// double colon.
pub open spec fn ipv6_of(s: Seq<u8>) -> Option<Seq<u8>> {
    let gap = gap_place(s, 0);
    if gap < s.len() {
        match (groups_of(s.take(gap), false), groups_of(s.skip(gap + 2), true)) {
            (Some(head), Some(tail)) => if head.len() + tail.len() <= 7 {
                Some(
                    group_octets(
                        head + zero_groups(8 - head.len() - tail.len()) + tail,
                    ),
                )
            } else {
                None
            },
            _ => None,
        }
    } else {
        match groups_of(s, true) {
            Some(all) => if all.len() == 8 {
                Some(group_octets(all))
            } else {
                None
            },
            None => None,
        }
    }
}

/// The octets of the address that `s` is, if it is one: four or sixteen.
pub open spec fn address_of(s: Seq<u8>) -> Option<Seq<u8>> {
    if ipv4_of(s) is Some {
        ipv4_of(s)
    } else {
        ipv6_of(s)
    }
}

/// The octets of an address.
pub open spec fn octets_of(ip: IpAddress) -> Seq<u8> {
    match ip {
        IpAddress::V4(octets) => octets@,
        IpAddress::V6(octets) => octets@,
    }
}

/// The parts as sequences.
pub open spec fn views(all: Seq<Vec<u8>>) -> Seq<Seq<u8>> {
    Seq::new(all.len(), |i: int| all[i]@)
}

fn copy_range(s: &[u8], from: usize, to: usize) -> (copy: Vec<u8>)
    requires
        from <= to <= s@.len(),
    ensures
        copy@ == s@.subrange(from as int, to as int),
{
    let mut copy: Vec<u8> = Vec::new();
    crate::text::push_all(&mut copy, vstd::slice::slice_subrange(s, from, to));
    assert(copy@ =~= s@.subrange(from as int, to as int));
    copy
}

/// The parts of `s` from `from` on, behind those before it.
proof fn lemma_parts_from(s: Seq<u8>, sep: u8, from: int, end: int)
    requires
        0 <= from <= end <= s.len(),
        forall|i: int| from <= i < end ==> #[trigger] s[i] != sep,
        end < s.len() ==> s[end] == sep,
    ensures
        parts(s.skip(from), sep) == if end < s.len() {
            seq![s.subrange(from, end)] + parts(s.skip(end + 1), sep)
        } else {
            seq![s.subrange(from, end)]
        },
{
    let rest = s.skip(from);
    lemma_place_is(rest, sep, 0, end - from);
    if end < s.len() {
        assert(rest.take(end - from) =~= s.subrange(from, end));
        assert(rest.skip(end - from + 1) =~= s.skip(end + 1));
    } else {
        assert(rest =~= s.subrange(from, end));
    }
}

pub proof fn lemma_place_is(s: Seq<u8>, sep: u8, at: int, end: int)
    requires
        0 <= at <= end <= s.len(),
        forall|i: int| at <= i < end ==> #[trigger] s[i] != sep,
        end < s.len() ==> s[end] == sep,
    ensures
        place_of(s, sep, at) == end,
    decreases end - at,
{
    if at < end {
        lemma_place_is(s, sep, at + 1, end);
    }
}

fn split(s: &[u8], sep: u8) -> (all: Vec<Vec<u8>>)
    ensures
        views(all@) == parts(s@, sep),
{
    let mut all: Vec<Vec<u8>> = Vec::new();
    let mut from: usize = 0;
    let mut i: usize = 0;
    assert(s@.skip(0) =~= s@);
    assert(views(all@) + parts(s@.skip(0), sep) =~= parts(s@, sep));
    while i < s.len()
        invariant
            from <= i <= s@.len(),
            forall|j: int| from <= j < i ==> #[trigger] s@[j] != sep,
            views(all@) + parts(s@.skip(from as int), sep) == parts(s@, sep),
        decreases s@.len() - i,
    {
        if s[i] == sep {
            let part = copy_range(s, from, i);
            proof {
                lemma_parts_from(s@, sep, from as int, i as int);
            }
            let ghost before = views(all@);
            all.push(part);
            assert(views(all@) =~= before.push(part@));
            assert(views(all@) + parts(s@.skip(i + 1), sep) =~= before + parts(
                s@.skip(from as int),
                sep,
            ));
            from = i + 1;
        }
        i = i + 1;
    }
    let part = copy_range(s, from, i);
    proof {
        lemma_parts_from(s@, sep, from as int, i as int);
    }
    let ghost before = views(all@);
    all.push(part);
    assert(views(all@) =~= before + seq![part@]);
    all
}

fn parse_octet(s: &[u8]) -> (value: Option<u8>)
    ensures
        value == octet(s@),
{
    if s.len() == 0 || s.len() > 3 || (s.len() > 1 && s[0] == 48) {
        return None;
    }
    let mut total: u16 = 0;
    let mut i: usize = 0;
    while i < s.len()
        invariant
            i <= s@.len() <= 3,
            all_digits(s@.take(i as int)),
            total == digits_value(s@.take(i as int)),
            i == 0 ==> total <= 0,
            i <= 1 ==> total <= 9,
            i <= 2 ==> total <= 99,
            total <= 999,
        decreases s@.len() - i,
    {
        let b: u8 = s[i];
        assert(s@.take(i + 1).drop_last() =~= s@.take(i as int));
        if b < 48 || b > 57 {
            assert(!all_digits(s@));
            return None;
        }
        assert(all_digits(s@.take(i + 1))) by {
            assert forall|j: int| 0 <= j < i + 1 implies 48 <= #[trigger] s@.take(i + 1)[j]
                <= 57 by {
                if j < i {
                    assert(s@.take(i as int)[j] == s@[j]);
                }
            }
        }
        total = total * 10 + (b - 48) as u16;
        i = i + 1;
    }
    assert(s@.take(i as int) =~= s@);
    if total > 255 {
        return None;
    }
    Some(total as u8)
}

/// Reads an address in dotted decimal.
pub fn parse_ipv4(s: &[u8]) -> (result: Option<[u8; 4]>)
    ensures
        match result {
            Some(octets) => ipv4_of(s@) == Some(octets@),
            None => ipv4_of(s@) is None,
        },
{
    let all = split(s, 46);
    assert(all@.len() == views(all@).len());
    if all.len() != 4 {
        return None;
    }
    assert(views(all@)[0] == all@[0]@ && views(all@)[1] == all@[1]@ && views(all@)[2] == all@[2]@
        && views(all@)[3] == all@[3]@);
    match (
        parse_octet(&all[0]),
        parse_octet(&all[1]),
        parse_octet(&all[2]),
        parse_octet(&all[3]),
    ) {
        (Some(a), Some(b), Some(c), Some(d)) => {
            let octets = [a, b, c, d];
            assert(octets@ =~= seq![a, b, c, d]);
            Some(octets)
        },
        _ => None,
    }
}

fn hex_digit_value(b: u8) -> (value: Option<u16>)
    ensures
        match value {
            Some(v) => digit_of(b) == Some(v as nat) && v < 16,
            None => digit_of(b) is None,
        },
{
    if 48 <= b && b <= 57 {
        Some((b - 48) as u16)
    } else if 97 <= b && b <= 102 {
        Some((b - 87) as u16)
    } else if 65 <= b && b <= 70 {
        Some((b - 55) as u16)
    } else {
        None
    }
}

fn parse_group(s: &[u8]) -> (value: Option<u16>)
    ensures
        value == group(s@),
{
    if s.len() == 0 || s.len() > 4 {
        return None;
    }
    let mut total: u32 = 0;
    let mut i: usize = 0;
    while i < s.len()
        invariant
            i <= s@.len() <= 4,
            all_hex(s@.take(i as int)),
            total == hex_value(s@.take(i as int)),
            i == 0 ==> total <= 0,
            i <= 1 ==> total <= 0xf,
            i <= 2 ==> total <= 0xff,
            i <= 3 ==> total <= 0xfff,
            total <= 0xffff,
        decreases s@.len() - i,
    {
        assert(s@.take(i + 1).drop_last() =~= s@.take(i as int));
        match hex_digit_value(s[i]) {
            Some(v) => {
                assert(all_hex(s@.take(i + 1))) by {
                    assert forall|j: int| 0 <= j < i + 1 implies digit_of(
                        #[trigger] s@.take(i + 1)[j],
                    ) is Some by {
                        if j < i {
                            assert(s@.take(i as int)[j] == s@[j]);
                        }
                    }
                }
                total = total * 16 + v as u32;
            },
            None => {
                assert(digit_of(s@[i as int]) is None);
                assert(!all_hex(s@));
                return None;
            },
        }
        i = i + 1;
    }
    assert(s@.take(i as int) =~= s@);
    Some(total as u16)
}

/// From the last part back to the first, the groups behind each are known.
fn parse_groups(s: &[u8], dotted: bool) -> (result: Option<Vec<u16>>)
    ensures
        match result {
            Some(groups) => groups_of(s@, dotted) == Some(groups@),
            None => groups_of(s@, dotted) is None,
        },
{
    if s.len() == 0 {
        let none: Vec<u16> = Vec::new();
        assert(none@ =~= Seq::empty());
        return Some(none);
    }
    let all = split(s, 58);
    let ghost model = views(all@);
    let mut groups: Vec<u16> = Vec::new();
    let mut at: usize = 0;
    assert(groups@ =~= Seq::empty());
    let ghost whole = group_values(model, 0, dotted);
    assert(whole is Some ==> whole == Some(Seq::<u16>::empty() + whole->0)) by {
        if whole is Some {
            assert(Seq::<u16>::empty() + whole->0 =~= whole->0);
        }
    }
    while at < all.len()
        invariant
            at <= all@.len(),
            s@.len() > 0,
            model == views(all@),
            model == parts(s@, 58),
            whole == group_values(model, 0, dotted),
            match group_values(model, at as int, dotted) {
                Some(rest) => whole == Some(groups@ + rest),
                None => whole is None,
            },
        decreases all@.len() - at,
    {
        assert(model[at as int] == all@[at as int]@);
        if dotted && at == all.len() - 1 {
            if let Some(four) = parse_ipv4(&all[at]) {
                let ghost before = groups@;
                groups.push((four[0] as u16) * 256 + four[1] as u16);
                groups.push((four[2] as u16) * 256 + four[3] as u16);
                assert(groups@ =~= before + group_values(model, at as int, dotted)->0);
                return Some(groups);
            }
        }
        match parse_group(&all[at]) {
            Some(value) => {
                let ghost before = groups@;
                groups.push(value);
                proof {
                    let rest = group_values(model, at + 1, dotted);
                    if rest is Some {
                        assert(before + (seq![value] + rest->0) =~= groups@ + rest->0);
                    }
                }
            },
            None => return None,
        }
        at = at + 1;
    }
    assert(groups@ + Seq::<u16>::empty() =~= groups@);
    Some(groups)
}

fn find_gap(s: &[u8]) -> (gap: usize)
    ensures
        gap == gap_place(s@, 0),
        gap <= s@.len(),
        gap < s@.len() ==> gap + 2 <= s@.len(),
{
    let size: usize = s.len();
    let mut at: usize = 0;
    while at < size && 1 < size - at
        invariant
            size == s@.len(),
            at <= size,
            gap_place(s@, 0) == gap_place(s@, at as int),
        decreases size - at,
    {
        if s[at] == 58 && s[at + 1] == 58 {
            return at;
        }
        at = at + 1;
    }
    size
}

fn store_groups(groups: &[u16], octets: &mut [u8; 16], at: usize)
    requires
        at + groups@.len() <= 8,
    ensures
        forall|i: int|
            0 <= i < 16 ==> #[trigger] final(octets)@[i] == if 2 * at <= i < 2 * (at
                + groups@.len()) {
                if i % 2 == 0 {
                    (groups@[i / 2 - at] / 256) as u8
                } else {
                    (groups@[i / 2 - at] % 256) as u8
                }
            } else {
                old(octets)@[i]
            },
{
    let mut n: usize = 0;
    while n < groups.len()
        invariant
            n <= groups@.len(),
            at + groups@.len() <= 8,
            forall|i: int|
                0 <= i < 16 ==> #[trigger] octets@[i] == if 2 * at <= i < 2 * (at + n) {
                    if i % 2 == 0 {
                        (groups@[i / 2 - at] / 256) as u8
                    } else {
                        (groups@[i / 2 - at] % 256) as u8
                    }
                } else {
                    old(octets)@[i]
                },
        decreases groups@.len() - n,
    {
        let value: u16 = groups[n];
        octets[2 * (at + n)] = (value / 256) as u8;
        octets[2 * (at + n) + 1] = (value % 256) as u8;
        n = n + 1;
    }
}

/// Reads an IPv6 address.
pub fn parse_ipv6(s: &[u8]) -> (result: Option<[u8; 16]>)
    ensures
        match result {
            Some(octets) => ipv6_of(s@) == Some(octets@),
            None => ipv6_of(s@) is None,
        },
{
    let gap: usize = find_gap(s);
    let mut octets = [0u8; 16];
    if gap < s.len() {
        let before = vstd::slice::slice_subrange(s, 0, gap);
        let after = vstd::slice::slice_subrange(s, gap + 2, s.len());
        assert(before@ =~= s@.take(gap as int));
        assert(after@ =~= s@.skip(gap + 2));
        match (parse_groups(before, false), parse_groups(after, true)) {
            (Some(head), Some(tail)) => {
                if head.len() > 7 || tail.len() > 7 || head.len() + tail.len() > 7 {
                    return None;
                }
                store_groups(&head, &mut octets, 0);
                store_groups(&tail, &mut octets, 8 - tail.len());
                assert(octets@ =~= group_octets(
                    head@ + zero_groups(8 - head@.len() - tail@.len()) + tail@,
                ));
                Some(octets)
            },
            _ => None,
        }
    } else {
        match parse_groups(s, true) {
            Some(all) => {
                if all.len() != 8 {
                    return None;
                }
                store_groups(&all, &mut octets, 0);
                assert(octets@ =~= group_octets(all@));
                Some(octets)
            },
            None => None,
        }
    }
}

/// Reads an address of either family.
pub fn parse_address(s: &[u8]) -> (result: Option<IpAddress>)
    ensures
        match result {
            Some(ip) => address_of(s@) == Some(octets_of(ip)),
            None => address_of(s@) is None,
        },
{
    match parse_ipv4(s) {
        Some(octets) => Some(IpAddress::V4(octets)),
        None => match parse_ipv6(s) {
            Some(octets) => Some(IpAddress::V6(octets)),
            None => None,
        },
    }
}

/// Whether `b` does not occur in `s`.
pub open spec fn free_of(s: Seq<u8>, b: u8) -> bool {
    forall|i: int| 0 <= i < s.len() ==> #[trigger] s[i] != b
}

proof fn lemma_parts_head(a: Seq<u8>, b: Seq<u8>, sep: u8)
    requires
        free_of(a, sep),
    ensures
        parts(a + seq![sep] + b, sep) == seq![a] + parts(b, sep),
{
    let s = a + seq![sep] + b;
    assert forall|i: int| 0 <= i < a.len() implies #[trigger] s[i] != sep by {
        assert(s[i] == a[i]);
    }
    lemma_parts_from(s, sep, 0, a.len() as int);
    assert(s.skip(0) =~= s);
    assert(s.subrange(0, a.len() as int) =~= a);
    assert(s.skip(1int + a.len()) =~= b);
}

proof fn lemma_parts_whole(s: Seq<u8>, sep: u8)
    requires
        free_of(s, sep),
    ensures
        parts(s, sep) == seq![s],
{
    lemma_parts_from(s, sep, 0, s.len() as int);
    assert(s.skip(0) =~= s);
    assert(s.subrange(0, s.len() as int) =~= s);
}

/// A number up to 255 reads back from its decimal text.
proof fn lemma_decimal_reads(n: u8)
    ensures
        octet(decimal(n as nat)) == Some(n),
        free_of(decimal(n as nat), 46),
        free_of(decimal(n as nat), 58),
        decimal(n as nat).len() > 0,
{
    let text = decimal(n as nat);
    reveal_with_fuel(decimal, 3);
    reveal_with_fuel(digits_value, 4);
    if n < 10 {
        assert(text =~= seq![(48 + n) as u8]);
        assert(text.drop_last() =~= Seq::empty());
    } else if n < 100 {
        assert(text =~= seq![(48 + n / 10) as u8, (48 + n % 10) as u8]);
        assert(text.drop_last() =~= seq![(48 + n / 10) as u8]);
        assert(text.drop_last().drop_last() =~= Seq::empty());
    } else {
        let h = (n / 10 / 10) as u8;
        let t = (n / 10 % 10) as u8;
        assert(text =~= seq![(48 + h) as u8, (48 + t) as u8, (48 + n % 10) as u8]);
        assert(text.drop_last() =~= seq![(48 + h) as u8, (48 + t) as u8]);
        assert(text.drop_last().drop_last() =~= seq![(48 + h) as u8]);
        assert(text.drop_last().drop_last().drop_last() =~= Seq::empty());
    }
}

pub proof fn lemma_ipv4_reads(octets: Seq<u8>)
    requires
        octets.len() == 4,
    ensures
        ipv4_of(ipv4_text(octets)) == Some(octets),
        free_of(ipv4_text(octets), 58),
        ipv4_text(octets).len() > 0,
{
    let a = decimal(octets[0] as nat);
    let b = decimal(octets[1] as nat);
    let c = decimal(octets[2] as nat);
    let d = decimal(octets[3] as nat);
    lemma_decimal_reads(octets[0]);
    lemma_decimal_reads(octets[1]);
    lemma_decimal_reads(octets[2]);
    lemma_decimal_reads(octets[3]);
    let dot = seq![46u8];
    let last2 = c + dot + d;
    let last3 = b + dot + last2;
    let text = ipv4_text(octets);
    assert(text =~= a + dot + last3);
    lemma_parts_head(a, last3, 46);
    lemma_parts_head(b, last2, 46);
    lemma_parts_head(c, d, 46);
    lemma_parts_whole(d, 46);
    assert(parts(text, 46) =~= seq![a, b, c, d]);
    assert(ipv4_of(text)->0 =~= octets);
    assert forall|i: int| 0 <= i < text.len() implies #[trigger] text[i] != 58 by {
        if i < a.len() {
            assert(text[i] == a[i]);
        } else if i > a.len() {
            let j = i - a.len() - 1;
            assert(text[i] == last3[j]);
            if j < b.len() {
                assert(last3[j] == b[j]);
            } else if j > b.len() {
                let k = j - b.len() - 1;
                assert(last3[j] == last2[k]);
                if k < c.len() {
                    assert(last2[k] == c[k]);
                } else if k > c.len() {
                    assert(last2[k] == d[k - c.len() - 1]);
                }
            }
        }
    }
}

proof fn lemma_hex_value_reads(n: nat)
    ensures
        hex_value(hexadecimal(n)) == n,
        all_hex(hexadecimal(n)),
        free_of(hexadecimal(n), 46),
        free_of(hexadecimal(n), 58),
        hexadecimal(n).len() > 0,
    decreases n,
{
    let text = hexadecimal(n);
    if n < 16 {
        assert(text.drop_last() =~= Seq::empty());
        assert(hex_value(text.drop_last()) == 0);
    } else {
        lemma_hex_value_reads(n / 16);
        assert(text.drop_last() =~= hexadecimal(n / 16));
        assert forall|i: int| 0 <= i < text.len() implies digit_of(#[trigger] text[i]) is Some
            && text[i] != 46 && text[i] != 58 by {
            if i < text.len() - 1 {
                assert(text[i] == hexadecimal(n / 16)[i]);
            }
        }
    }
}

/// A group reads back from its hexadecimal text.
proof fn lemma_group_reads(value: u16)
    ensures
        group(hexadecimal(value as nat)) == Some(value),
{
    lemma_hex_value_reads(value as nat);
    reveal_with_fuel(hexadecimal, 4);
    let n = value as nat;
    if n < 16 {
    } else if n < 256 {
        assert(n / 16 < 16);
    } else if n < 4096 {
        assert(n / 16 < 256);
        assert(n / 16 / 16 < 16);
    } else {
        assert(n / 16 < 4096);
        assert(n / 16 / 16 < 256);
        assert(n / 16 / 16 / 16 < 16);
    }
}

proof fn lemma_groups_text_front(all: Seq<u16>)
    requires
        all.len() >= 2,
    ensures
        groups_text(all) == hexadecimal(all[0] as nat) + seq![58u8] + groups_text(
            all.drop_first(),
        ),
    decreases all.len(),
{
    let front = hexadecimal(all[0] as nat);
    let last = hexadecimal(all.last() as nat);
    let colon = seq![58u8];
    if all.len() == 2 {
        assert(all.drop_last() =~= seq![all[0]]);
        assert(all.drop_first() =~= seq![all[1]]);
    } else {
        lemma_groups_text_front(all.drop_last());
        assert(all.drop_last().drop_first() =~= all.drop_first().drop_last());
        let middle = groups_text(all.drop_first().drop_last());
        assert(groups_text(all.drop_first()) == middle + colon + last);
        assert(groups_text(all) == groups_text(all.drop_last()) + colon + last);
        assert(groups_text(all) =~= front + colon + groups_text(all.drop_first()));
    }
}

/// The texts of groups.
pub open spec fn group_texts(all: Seq<u16>) -> Seq<Seq<u8>> {
    Seq::new(all.len(), |i: int| hexadecimal(all[i] as nat))
}

proof fn lemma_groups_text_parts(all: Seq<u16>)
    requires
        all.len() >= 1,
    ensures
        parts(groups_text(all), 58) == group_texts(all),
    decreases all.len(),
{
    lemma_hex_value_reads(all[0] as nat);
    if all.len() == 1 {
        lemma_parts_whole(groups_text(all), 58);
        assert(seq![groups_text(all)] =~= group_texts(all));
    } else {
        lemma_groups_text_front(all);
        lemma_groups_text_parts(all.drop_first());
        lemma_parts_head(hexadecimal(all[0] as nat), groups_text(all.drop_first()), 58);
        assert(seq![hexadecimal(all[0] as nat)] + group_texts(all.drop_first()) =~= group_texts(
            all,
        ));
    }
}

proof fn lemma_group_values_read(all: Seq<u16>, at: int, dotted: bool)
    requires
        0 <= at <= all.len(),
    ensures
        group_values(group_texts(all), at, dotted) == Some(all.skip(at)),
    decreases all.len() - at,
{
    if at < all.len() {
        let text = hexadecimal(all[at] as nat);
        lemma_group_values_read(all, at + 1, dotted);
        lemma_group_reads(all[at]);
        lemma_hex_value_reads(all[at] as nat);
        lemma_parts_whole(text, 46);
        assert(ipv4_of(text) is None);
        assert(group_texts(all)[at] == text);
        assert(seq![all[at]] + all.skip(at + 1) =~= all.skip(at));
    } else {
        assert(all.skip(at) =~= Seq::empty());
    }
}

/// What is read of the text of groups is the groups.
proof fn lemma_groups_read(all: Seq<u16>, dotted: bool)
    ensures
        groups_of(groups_text(all), dotted) == Some(all),
{
    if all.len() == 0 {
        assert(all =~= Seq::empty());
    } else {
        lemma_groups_text_parts(all);
        lemma_group_values_read(all, 0, dotted);
        lemma_groups_text_shape(all);
        assert(all.skip(0) =~= all);
    }
}

/// The text of groups neither begins nor ends with a colon, has no two colons in
/// a row, and has no dot.
proof fn lemma_groups_text_shape(all: Seq<u16>)
    requires
        all.len() >= 1,
    ensures
        groups_text(all).len() > 0,
        groups_text(all)[0] != 58,
        groups_text(all).last() != 58,
        forall|i: int|
            0 <= i < groups_text(all).len() - 1 ==> #[trigger] groups_text(all)[i] != 58
                || groups_text(all)[i + 1] != 58,
        free_of(groups_text(all), 46),
    decreases all.len(),
{
    let last = hexadecimal(all.last() as nat);
    lemma_hex_value_reads(all.last() as nat);
    let text = groups_text(all);
    if all.len() > 1 {
        lemma_groups_text_shape(all.drop_last());
        let before = groups_text(all.drop_last());
        let n = before.len() as int;
        assert(text =~= before + seq![58u8] + last);
        assert(text[0] == before[0]);
        assert(text.last() == last.last());
        assert forall|i: int| 0 <= i < text.len() - 1 implies #[trigger] text[i] != 58 || text[i
            + 1] != 58 by {
            if i < n - 1 {
                assert(text[i] == before[i] && text[i + 1] == before[i + 1]);
            } else if i == n - 1 {
                assert(text[i] == before.last());
            } else {
                assert(text[i + 1] == last[i + 1 - n - 1]);
            }
        }
        assert forall|i: int| 0 <= i < text.len() implies #[trigger] text[i] != 46 by {
            if i < n {
                assert(text[i] == before[i]);
            } else if i > n {
                assert(text[i] == last[i - n - 1]);
            }
        }
    } else {
        assert(text == last);
    }
}

proof fn lemma_gap_is(s: Seq<u8>, at: int, end: int)
    requires
        0 <= at <= end,
        end + 1 < s.len() || end == s.len(),
        end < s.len() ==> s[end] == 58 && s[end + 1] == 58,
        forall|i: int|
            at <= i < end && i + 1 < s.len() ==> #[trigger] s[i] != 58 || s[i + 1] != 58,
    ensures
        gap_place(s, at) == end,
    decreases end - at,
{
    if at < end {
        if at + 1 < s.len() {
            assert(s[at] != 58 || s[at + 1] != 58);
            lemma_gap_is(s, at + 1, end);
        }
    }
}

proof fn lemma_zeros_from(all: Seq<u16>, at: int)
    requires
        0 <= at <= all.len(),
    ensures
        at + zeros_from(all, at) <= all.len(),
        forall|i: int| at <= i < at + zeros_from(all, at) ==> #[trigger] all[i] == 0,
    decreases all.len() - at,
{
    if at < all.len() && all[at] == 0 {
        lemma_zeros_from(all, at + 1);
    }
}

proof fn lemma_longest_zeros(all: Seq<u16>, before: int)
    requires
        0 <= before <= all.len(),
    ensures
        ({
            let run = longest_zeros(all, before);
            &&& 0 <= run.0
            &&& run.0 + run.1 <= all.len()
            &&& forall|i: int| run.0 <= i < run.0 + run.1 ==> #[trigger] all[i] == 0
        }),
    decreases before,
{
    if before > 0 {
        lemma_longest_zeros(all, before - 1);
        lemma_zeros_from(all, before - 1);
    }
}

proof fn lemma_groups_give_octets(octets: Seq<u8>)
    requires
        octets.len() == 16,
    ensures
        group_octets(groups(octets)) == octets,
{
    assert forall|i: int| 0 <= i < 16 implies #[trigger] group_octets(groups(octets))[i]
        == octets[i] by {
        assert(groups(octets)[i / 2] == octets[2 * (i / 2)] * 256 + octets[2 * (i / 2) + 1]);
    }
    assert(group_octets(groups(octets)) =~= octets);
}

/// The text behind the gap of a mapped address reads as three groups.
proof fn lemma_mapped_tail(four: Seq<u8>)
    requires
        four.len() == 4,
    ensures
        groups_of(
            seq![102u8, 102u8, 102u8, 102u8] + seq![58u8] + ipv4_text(four),
            true,
        ) == Some(
            seq![
                0xffffu16,
                (four[0] * 256 + four[1]) as u16,
                (four[2] * 256 + four[3]) as u16,
            ],
        ),
{
    let ffff = seq![102u8, 102u8, 102u8, 102u8];
    let dotted = ipv4_text(four);
    let tail = ffff + seq![58u8] + dotted;
    let both = parts(tail, 58);
    lemma_ipv4_reads(four);
    lemma_parts_head(ffff, dotted, 58);
    lemma_parts_whole(dotted, 58);
    assert(both =~= seq![ffff, dotted]);
    assert(group(ffff) == Some(0xffffu16)) by {
        reveal_with_fuel(hex_value, 5);
        assert(ffff.drop_last() =~= seq![102u8, 102u8, 102u8]);
        assert(ffff.drop_last().drop_last() =~= seq![102u8, 102u8]);
        assert(ffff.drop_last().drop_last().drop_last() =~= seq![102u8]);
        assert(ffff.drop_last().drop_last().drop_last().drop_last() =~= Seq::empty());
    }
    let last = seq![(four[0] * 256 + four[1]) as u16, (four[2] * 256 + four[3]) as u16];
    assert(group_values(both, 1, true) == Some(last));
    assert(group_values(both, 0, true) == Some(seq![0xffffu16] + last));
    assert(seq![0xffffu16] + last =~= seq![0xffffu16, last[0], last[1]]);
}

/// The text of a mapped address is no dotted address.
proof fn lemma_mapped_is_not_dotted(four: Seq<u8>)
    requires
        four.len() == 4,
    ensures
        ipv4_of(
            seq![58u8, 58u8, 102u8, 102u8, 102u8, 102u8, 58u8] + ipv4_text(four),
        ) is None,
{
    let front = seq![58u8, 58u8, 102u8, 102u8, 102u8, 102u8, 58u8];
    let a = decimal(four[0] as nat);
    let first = front + a;
    let rest = decimal(four[1] as nat) + seq![46u8] + decimal(four[2] as nat) + seq![46u8]
        + decimal(four[3] as nat);
    let text = front + ipv4_text(four);
    lemma_decimal_reads(four[0]);
    assert(text =~= first + seq![46u8] + rest);
    assert forall|i: int| 0 <= i < first.len() implies #[trigger] first[i] != 46 by {
        if i >= 7 {
            assert(first[i] == a[i - 7]);
        }
    }
    lemma_parts_head(first, rest, 46);
    assert(parts(text, 46)[0] == first);
    assert(first[0] == 58);
    assert(octet(first) is None);
}

proof fn lemma_mapped_reads(octets: Seq<u8>)
    requires
        octets.len() == 16,
        v4_mapped(groups(octets)),
    ensures
        ipv6_of(ipv6_text(octets)) == Some(octets),
        ipv4_of(ipv6_text(octets)) is None,
{
    let all = groups(octets);
    let four = octets.skip(12);
    let text = ipv6_text(octets);
    let tail = seq![102u8, 102u8, 102u8, 102u8] + seq![58u8] + ipv4_text(four);
    let values = seq![
        0xffffu16,
        (four[0] * 256 + four[1]) as u16,
        (four[2] * 256 + four[3]) as u16,
    ];
    lemma_mapped_is_not_dotted(four);
    lemma_mapped_tail(four);
    assert(text =~= seq![58u8, 58u8] + tail);
    lemma_gap_is(text, 0, 0);
    assert(text.take(0) =~= Seq::empty());
    assert(text.skip(2) =~= tail);
    assert(Seq::<u16>::empty() + zero_groups(5) + values =~= all) by {
        assert(all[6] == four[0] * 256 + four[1]);
        assert(all[7] == four[2] * 256 + four[3]);
    }
    lemma_groups_give_octets(octets);
}

/// Text with a gap reads as the groups before it, zeros, and the groups behind it.
proof fn lemma_gapped_reads(head: Seq<u16>, tail: Seq<u16>)
    requires
        head.len() + tail.len() <= 7,
    ensures
        ({
            let text = groups_text(head) + seq![58u8, 58u8] + groups_text(tail);
            &&& ipv6_of(text) == Some(
                group_octets(head + zero_groups(8 - head.len() - tail.len()) + tail),
            )
            &&& ipv4_of(text) is None
        }),
{
    let a = groups_text(head);
    let b = groups_text(tail);
    let text = a + seq![58u8, 58u8] + b;
    let n = a.len() as int;
    if head.len() > 0 {
        lemma_groups_text_shape(head);
    }
    if tail.len() > 0 {
        lemma_groups_text_shape(tail);
    }
    assert forall|i: int| 0 <= i < n && i + 1 < text.len() implies #[trigger] text[i] != 58
        || text[i + 1] != 58 by {
        assert(text[i] == a[i]);
        if i < n - 1 {
            assert(text[i + 1] == a[i + 1]);
        } else {
            assert(text[i] == a.last());
        }
    }
    assert(text[n] == 58 && text[n + 1] == 58);
    lemma_gap_is(text, 0, n);
    assert(text.take(n) =~= a);
    assert(text.skip(n + 2) =~= b);
    lemma_groups_read(head, false);
    lemma_groups_read(tail, true);
    assert(ipv4_of(text) is None) by {
        assert forall|i: int| 0 <= i < text.len() implies #[trigger] text[i] != 46 by {
            if i < n {
                assert(text[i] == a[i]);
            } else if i >= n + 2 {
                assert(text[i] == b[i - n - 2]);
            }
        }
        lemma_parts_whole(text, 46);
    }
}

/// Text without a gap reads as its groups.
proof fn lemma_whole_reads(all: Seq<u16>)
    requires
        all.len() == 8,
    ensures
        ipv6_of(groups_text(all)) == Some(group_octets(all)),
        ipv4_of(groups_text(all)) is None,
{
    let text = groups_text(all);
    lemma_groups_text_shape(all);
    lemma_groups_read(all, true);
    lemma_gap_is(text, 0, text.len() as int);
    lemma_parts_whole(text, 46);
}

pub proof fn lemma_ipv6_reads(octets: Seq<u8>)
    requires
        octets.len() == 16,
    ensures
        ipv6_of(ipv6_text(octets)) == Some(octets),
        ipv4_of(ipv6_text(octets)) is None,
{
    let all = groups(octets);
    let run = longest_zeros(all, 8);
    lemma_longest_zeros(all, 8);
    lemma_groups_give_octets(octets);
    if v4_mapped(all) {
        lemma_mapped_reads(octets);
    } else if run.1 > 1 {
        let head = all.take(run.0);
        let tail = all.skip(run.0 + run.1);
        lemma_gapped_reads(head, tail);
        assert(head + zero_groups(8 - head.len() - tail.len()) + tail =~= all);
    } else {
        lemma_whole_reads(all);
    }
}

/// An address reads back from its text.
pub proof fn law_address_text_round_trip(ip: IpAddress)
    ensures
        address_of(ip_text(ip)) == Some(octets_of(ip)),
{
    match ip {
        IpAddress::V4(octets) => {
            lemma_ipv4_reads(octets@);
        },
        IpAddress::V6(octets) => {
            lemma_ipv6_reads(octets@);
        },
    }
}

/// Whether `b` may stand in the text of an address.
pub open spec fn is_address_octet(b: u8) -> bool {
    48 <= b <= 57 || 97 <= b <= 102 || b == 46 || b == 58
}

pub open spec fn all_address_octets(s: Seq<u8>) -> bool {
    forall|i: int| 0 <= i < s.len() ==> is_address_octet(#[trigger] s[i])
}

proof fn lemma_joined_octets(a: Seq<u8>, b: Seq<u8>)
    requires
        all_address_octets(a),
        all_address_octets(b),
    ensures
        all_address_octets(a + b),
{
    assert forall|i: int| 0 <= i < (a + b).len() implies is_address_octet(#[trigger] (a + b)[i]) by {
        if i < a.len() {
            assert((a + b)[i] == a[i]);
        } else {
            assert((a + b)[i] == b[i - a.len()]);
        }
    }
}

proof fn lemma_decimal_octets(n: nat)
    ensures
        all_address_octets(decimal(n)),
    decreases n,
{
    if n >= 10 {
        lemma_decimal_octets(n / 10);
        lemma_joined_octets(decimal(n / 10), seq![(48 + n % 10) as u8]);
        assert(decimal(n) =~= decimal(n / 10) + seq![(48 + n % 10) as u8]);
    }
}

proof fn lemma_hexadecimal_octets(n: nat)
    ensures
        all_address_octets(hexadecimal(n)),
    decreases n,
{
    if n >= 16 {
        let last = seq![crate::text::hex_digit(n % 16)];
        lemma_hexadecimal_octets(n / 16);
        lemma_joined_octets(hexadecimal(n / 16), last);
        assert(hexadecimal(n) =~= hexadecimal(n / 16) + last);
    }
}

proof fn lemma_ipv4_octets(octets: Seq<u8>)
    ensures
        all_address_octets(ipv4_text(octets)),
{
    let dot = seq![46u8];
    let a = decimal(octets[0] as nat);
    let b = decimal(octets[1] as nat);
    let c = decimal(octets[2] as nat);
    let d = decimal(octets[3] as nat);
    lemma_decimal_octets(octets[0] as nat);
    lemma_decimal_octets(octets[1] as nat);
    lemma_decimal_octets(octets[2] as nat);
    lemma_decimal_octets(octets[3] as nat);
    lemma_joined_octets(a, dot);
    lemma_joined_octets(a + dot, b);
    lemma_joined_octets(a + dot + b, dot);
    lemma_joined_octets(a + dot + b + dot, c);
    lemma_joined_octets(a + dot + b + dot + c, dot);
    lemma_joined_octets(a + dot + b + dot + c + dot, d);
}

proof fn lemma_groups_octets(all: Seq<u16>)
    ensures
        all_address_octets(groups_text(all)),
    decreases all.len(),
{
    if all.len() >= 1 {
        lemma_hexadecimal_octets(all.last() as nat);
        if all.len() >= 2 {
            let before = groups_text(all.drop_last());
            lemma_groups_octets(all.drop_last());
            lemma_joined_octets(before, seq![58u8]);
            lemma_joined_octets(before + seq![58u8], hexadecimal(all.last() as nat));
        }
    }
}

/// The text of an address consists of digits, the letters up to `f`, dots and
/// colons.
pub proof fn lemma_address_text_octets(ip: IpAddress)
    ensures
        all_address_octets(ip_text(ip)),
{
    match ip {
        IpAddress::V4(octets) => lemma_ipv4_octets(octets@),
        IpAddress::V6(octets) => {
            let all = groups(octets@);
            let run = longest_zeros(all, 8);
            if v4_mapped(all) {
                let head = seq![58u8, 58u8, 102u8, 102u8, 102u8, 102u8, 58u8];
                lemma_ipv4_octets(octets@.skip(12));
                lemma_joined_octets(head, ipv4_text(octets@.skip(12)));
            } else if run.1 > 1 {
                let a = groups_text(all.take(run.0));
                let b = groups_text(all.skip(run.0 + run.1));
                lemma_groups_octets(all.take(run.0));
                lemma_groups_octets(all.skip(run.0 + run.1));
                lemma_joined_octets(a, seq![58u8, 58u8]);
                lemma_joined_octets(a + seq![58u8, 58u8], b);
            } else {
                lemma_groups_octets(all);
            }
        },
    }
}

/// A number of a dotted address has one to three digits, no needless zero in
/// front, and is at most 255: it is the sum of its digits by their places.
pub proof fn law_octet_is_read_by_its_digits(s: Seq<u8>)
    ensures
        octet(s) is Some ==> 1 <= s.len() <= 3,
        s.len() == 1 ==> (octet(s) is Some <==> 48 <= s[0] <= 57),
        s.len() == 1 && octet(s) is Some ==> octet(s)->0 == s[0] - 48,
        s.len() == 2 ==> (octet(s) is Some <==> 49 <= s[0] <= 57 && 48 <= s[1] <= 57),
        s.len() == 2 && octet(s) is Some ==> octet(s)->0 == 10 * (s[0] - 48) + (s[1] - 48),
        s.len() == 3 ==> (octet(s) is Some <==> 49 <= s[0] <= 57 && 48 <= s[1] <= 57 && 48 <= s[2]
            <= 57 && 100 * (s[0] - 48) + 10 * (s[1] - 48) + (s[2] - 48) <= 255),
        s.len() == 3 && octet(s) is Some ==> octet(s)->0 == 100 * (s[0] - 48) + 10 * (s[1] - 48) + (
        s[2] - 48),
{
    reveal_with_fuel(digits_value, 4);
    if s.len() == 1 {
        assert(s.drop_last() =~= Seq::<u8>::empty());
    } else if s.len() == 2 {
        assert(s.drop_last() =~= seq![s[0]]);
        assert(seq![s[0]].drop_last() =~= Seq::<u8>::empty());
    } else if s.len() == 3 {
        assert(s.drop_last() =~= seq![s[0], s[1]]);
        assert(seq![s[0], s[1]].drop_last() =~= seq![s[0]]);
        assert(seq![s[0]].drop_last() =~= Seq::<u8>::empty());
    }
}

/// A hexadecimal digit is a digit or a letter up to F of either case.
pub proof fn law_hexadecimal_digits_have_either_case(b: u8)
    ensures
        '0' <= b as char <= '9' ==> digit_of(b) == Some((b - 48) as nat),
        'a' <= b as char <= 'f' ==> digit_of(b) == Some((b - 97 + 10) as nat),
        'A' <= b as char <= 'F' ==> digit_of(b) == Some((b - 65 + 10) as nat),
        digit_of(b) is Some ==> digit_of(b)->0 < 16,
        digit_of(b) is Some <==> ('0' <= b as char <= '9') || ('a' <= b as char <= 'f') || ('A' <= b
            as char <= 'F'),
{
}

/// A group of an IPv6 address has one to four hexadecimal digits, and is their
/// value by their places.
pub proof fn law_group_is_read_by_its_digits(s: Seq<u8>)
    ensures
        group(s) is Some <==> 1 <= s.len() <= 4 && forall|i: int|
            0 <= i < s.len() ==> digit_of(#[trigger] s[i]) is Some,
        s.len() == 1 && group(s) is Some ==> group(s)->0 == digit_of(s[0])->0,
        s.len() == 2 && group(s) is Some ==> group(s)->0 == 16 * digit_of(s[0])->0 + digit_of(
            s[1],
        )->0,
        s.len() == 3 && group(s) is Some ==> group(s)->0 == 256 * digit_of(s[0])->0 + 16 * digit_of(
            s[1],
        )->0 + digit_of(s[2])->0,
        s.len() == 4 && group(s) is Some ==> group(s)->0 == 4096 * digit_of(s[0])->0 + 256
            * digit_of(s[1])->0 + 16 * digit_of(s[2])->0 + digit_of(s[3])->0,
{
    reveal_with_fuel(hex_value, 5);
    if s.len() == 1 {
        assert(s.drop_last() =~= Seq::<u8>::empty());
    } else if s.len() == 2 {
        assert(s.drop_last() =~= seq![s[0]]);
        assert(seq![s[0]].drop_last() =~= Seq::<u8>::empty());
    } else if s.len() == 3 {
        assert(s.drop_last() =~= seq![s[0], s[1]]);
        assert(seq![s[0], s[1]].drop_last() =~= seq![s[0]]);
        assert(seq![s[0]].drop_last() =~= Seq::<u8>::empty());
    } else if s.len() == 4 {
        assert(s.drop_last() =~= seq![s[0], s[1], s[2]]);
        assert(seq![s[0], s[1], s[2]].drop_last() =~= seq![s[0], s[1]]);
        assert(seq![s[0], s[1]].drop_last() =~= seq![s[0]]);
        assert(seq![s[0]].drop_last() =~= Seq::<u8>::empty());
    }
}

/// A dotted address is four numbers, and each is an octet of it in turn.
pub proof fn law_dotted_address_has_four_numbers(s: Seq<u8>)
    ensures
        ipv4_of(s) is Some <==> {
            &&& parts(s, 46).len() == 4
            &&& forall|i: int| 0 <= i < 4 ==> octet(#[trigger] parts(s, 46)[i]) is Some
        },
        ipv4_of(s) is Some ==> {
            &&& ipv4_of(s)->0.len() == 4
            &&& forall|i: int|
                0 <= i < 4 ==> #[trigger] ipv4_of(s)->0[i] == octet(parts(s, 46)[i])->0
        },
{
    let all = parts(s, 46);
    if all.len() == 4 && forall|i: int| 0 <= i < 4 ==> octet(#[trigger] all[i]) is Some {
        assert(octet(all[0]) is Some && octet(all[1]) is Some && octet(all[2]) is Some && octet(
            all[3],
        ) is Some);
    }
}

/// An IPv6 address has eight groups: all of them written out, or at most seven
/// with zeros in place of a double colon.
pub proof fn law_ipv6_address_has_eight_groups(s: Seq<u8>)
    ensures
        ipv6_of(s) is Some ==> ipv6_of(s)->0.len() == 16,
        gap_place(s, 0) >= s.len() && ipv6_of(s) is Some ==> {
            &&& groups_of(s, true) is Some
            &&& groups_of(s, true)->0.len() == 8
            &&& ipv6_of(s)->0 == group_octets(groups_of(s, true)->0)
        },
        gap_place(s, 0) < s.len() && ipv6_of(s) is Some ==> {
            let head = groups_of(s.take(gap_place(s, 0)), false);
            let tail = groups_of(s.skip(gap_place(s, 0) + 2), true);
            &&& head is Some && tail is Some
            &&& head->0.len() + tail->0.len() <= 7
            &&& forall|i: int|
                0 <= i < 2 * head->0.len() ==> #[trigger] ipv6_of(s)->0[i] == group_octets(
                    head->0,
                )[i]
            &&& forall|i: int|
                2 * head->0.len() <= i < 16 - 2 * tail->0.len() ==> #[trigger] ipv6_of(s)->0[i] == 0
            &&& forall|i: int|
                16 - 2 * tail->0.len() <= i < 16 ==> #[trigger] ipv6_of(s)->0[i] == group_octets(
                    tail->0,
                )[i - (16 - 2 * tail->0.len())]
        },
        address_of(s) is Some <==> ipv4_of(s) is Some || ipv6_of(s) is Some,
        ipv4_of(s) is Some ==> address_of(s) == ipv4_of(s),
{
}

/// The octets of a group are its higher and its lower one, in this order.
pub proof fn law_groups_are_two_octets(groups: Seq<u16>, at: int)
    requires
        0 <= at < groups.len(),
    ensures
        group_octets(groups).len() == 2 * groups.len(),
        256 * group_octets(groups)[2 * at] + group_octets(groups)[2 * at + 1] == groups[at],
{
    assert((2 * at) / 2 == at && (2 * at + 1) / 2 == at);
}

} // verus!
