//! Numbers and addresses as ASCII text.

use crate::bytes::be16;
use crate::net::IpAddress;
use vstd::prelude::*;

verus! {

/// `n` in decimal, without leading zeros.
pub open spec fn decimal(n: nat) -> Seq<u8>
    decreases n,
{
    if n < 10 {
        seq![(48 + n) as u8]
    } else {
        decimal(n / 10).push((48 + n % 10) as u8)
    }
}

/// The lower-case hexadecimal digit for `n`.
pub open spec fn hex_digit(n: nat) -> u8 {
    if n < 10 {
        (48 + n) as u8
    } else {
        (87 + n) as u8
    }
}

/// `n` in lower-case hexadecimal, without leading zeros.
pub open spec fn hexadecimal(n: nat) -> Seq<u8>
    decreases n,
{
    if n < 16 {
        seq![hex_digit(n)]
    } else {
        hexadecimal(n / 16).push(hex_digit(n % 16))
    }
}

/// An IPv4 address in dotted decimal.
pub open spec fn ipv4_text(octets: Seq<u8>) -> Seq<u8> {
    decimal(octets[0] as nat) + seq![46u8] + decimal(octets[1] as nat) + seq![46u8] + decimal(
        octets[2] as nat,
    ) + seq![46u8] + decimal(octets[3] as nat)
}

/// The eight groups of an IPv6 address.
pub open spec fn groups(octets: Seq<u8>) -> Seq<u16> {
    Seq::new(8, |i: int| be16(octets, 2 * i))
}

/// How many zero groups there are from `at` on without a break.
pub open spec fn zeros_from(groups: Seq<u16>, at: int) -> nat
    decreases groups.len() - at,
{
    if 0 <= at < groups.len() && groups[at] == 0 {
        1 + zeros_from(groups, at + 1)
    } else {
        0
    }
}

/// The earliest place below `before` with the most zero groups from it on, and
/// how many these are.
pub open spec fn longest_zeros(groups: Seq<u16>, before: int) -> (int, nat)
    decreases before,
{
    if before <= 0 {
        (0, 0)
    } else {
        let earlier = longest_zeros(groups, before - 1);
        let here = zeros_from(groups, before - 1);
        if here > earlier.1 {
            (before - 1, here)
        } else {
            earlier
        }
    }
}

/// Groups in hexadecimal with colons between them.
pub open spec fn groups_text(groups: Seq<u16>) -> Seq<u8>
    decreases groups.len(),
{
    if groups.len() == 0 {
        Seq::empty()
    } else if groups.len() == 1 {
        hexadecimal(groups[0] as nat)
    } else {
        groups_text(groups.drop_last()) + seq![58u8] + hexadecimal(groups.last() as nat)
    }
}

/// Whether the address is an IPv4 address mapped into IPv6.
pub open spec fn v4_mapped(groups: Seq<u16>) -> bool {
    &&& groups[0] == 0
    &&& groups[1] == 0
    &&& groups[2] == 0
    &&& groups[3] == 0
    &&& groups[4] == 0
    &&& groups[5] == 0xffff
}

/// An IPv6 address in its canonical text form: the first longest run of two or
/// more zero groups is left out, and a mapped IPv4 address is dotted.
pub open spec fn ipv6_text(octets: Seq<u8>) -> Seq<u8> {
    let all = groups(octets);
    let run = longest_zeros(all, 8);
    if v4_mapped(all) {
        seq![58u8, 58u8, 102u8, 102u8, 102u8, 102u8, 58u8] + ipv4_text(octets.skip(12))
    } else if run.1 > 1 {
        groups_text(all.take(run.0)) + seq![58u8, 58u8] + groups_text(all.skip(run.0 + run.1))
    } else {
        groups_text(all)
    }
}

pub open spec fn ip_text(ip: IpAddress) -> Seq<u8> {
    match ip {
        IpAddress::V4(octets) => ipv4_text(octets@),
        IpAddress::V6(octets) => ipv6_text(octets@),
    }
}

/// Appends the octets of `bytes`.
pub fn push_all(out: &mut Vec<u8>, bytes: &[u8])
    ensures
        final(out)@ == old(out)@ + bytes@,
{
    let mut i: usize = 0;
    assert(out@ =~= old(out)@ + bytes@.take(0));
    while i < bytes.len()
        invariant
            i <= bytes@.len(),
            out@ == old(out)@ + bytes@.take(i as int),
        decreases bytes@.len() - i,
    {
        out.push(bytes[i]);
        i = i + 1;
        assert(out@ =~= old(out)@ + bytes@.take(i as int));
    }
    assert(bytes@.take(i as int) =~= bytes@);
}

pub fn push_decimal(out: &mut Vec<u8>, n: u64)
    ensures
        final(out)@ == old(out)@ + decimal(n as nat),
    decreases n,
{
    if n >= 10 {
        push_decimal(out, n / 10);
    }
    let ghost before = out@;
    out.push(48 + (n % 10) as u8);
    assert(out@ =~= old(out)@ + decimal(n as nat));
}

pub fn push_hexadecimal(out: &mut Vec<u8>, n: u64)
    ensures
        final(out)@ == old(out)@ + hexadecimal(n as nat),
    decreases n,
{
    if n >= 16 {
        push_hexadecimal(out, n / 16);
    }
    let digit: u8 = (n % 16) as u8;
    out.push(
        if digit < 10 {
            48 + digit
        } else {
            87 + digit
        },
    );
    assert(out@ =~= old(out)@ + hexadecimal(n as nat));
}

/// Appends an IPv4 address in dotted decimal.
pub fn push_ipv4(out: &mut Vec<u8>, octets: [u8; 4])
    ensures
        final(out)@ == old(out)@ + ipv4_text(octets@),
{
    push_decimal(out, octets[0] as u64);
    out.push(46);
    push_decimal(out, octets[1] as u64);
    out.push(46);
    push_decimal(out, octets[2] as u64);
    out.push(46);
    push_decimal(out, octets[3] as u64);
    assert(out@ =~= old(out)@ + ipv4_text(octets@));
}

fn push_groups(out: &mut Vec<u8>, groups: &[u16], from: usize, to: usize)
    requires
        from <= to <= groups@.len(),
    ensures
        final(out)@ == old(out)@ + groups_text(groups@.subrange(from as int, to as int)),
{
    let mut i: usize = from;
    assert(out@ =~= old(out)@ + groups_text(groups@.subrange(from as int, from as int)));
    while i < to
        invariant
            from <= i <= to <= groups@.len(),
            out@ == old(out)@ + groups_text(groups@.subrange(from as int, i as int)),
        decreases to - i,
    {
        let ghost longer = groups@.subrange(from as int, i + 1);
        assert(longer.drop_last() =~= groups@.subrange(from as int, i as int));
        if i > from {
            out.push(58);
        }
        push_hexadecimal(out, groups[i] as u64);
        assert(out@ =~= old(out)@ + groups_text(longer));
        i = i + 1;
    }
}

fn count_zeros(groups: &[u16], at: usize) -> (count: usize)
    requires
        at <= groups@.len(),
    ensures
        count == zeros_from(groups@, at as int),
        at + count <= groups@.len(),
{
    let mut i: usize = groups.len();
    let mut count: usize = 0;
    while i > at
        invariant
            at <= i <= groups@.len(),
            count == zeros_from(groups@, i as int),
            i + count <= groups@.len(),
        decreases i,
    {
        i = i - 1;
        if groups[i] == 0 {
            count = count + 1;
        } else {
            count = 0;
        }
    }
    count
}

fn push_ipv6(out: &mut Vec<u8>, octets: [u8; 16])
    ensures
        final(out)@ == old(out)@ + ipv6_text(octets@),
{
    let mut all: [u16; 8] = [0u16; 8];
    let mut i: usize = 0;
    while i < 8
        invariant
            i <= 8,
            forall|j: int| 0 <= j < i ==> #[trigger] all@[j] == be16(octets@, 2 * j),
        decreases 8 - i,
    {
        all[i] = crate::bytes::read_be16(&octets, 2 * i);
        i = i + 1;
    }
    assert(all@ =~= groups(octets@));
    if all[0] == 0 && all[1] == 0 && all[2] == 0 && all[3] == 0 && all[4] == 0 && all[5] == 0xffff {
        let last = [octets[12], octets[13], octets[14], octets[15]];
        assert(last@ =~= octets@.skip(12));
        push_all(out, &[58, 58, 102, 102, 102, 102, 58]);
        push_ipv4(out, last);
        assert(out@ =~= old(out)@ + ipv6_text(octets@));
        return;
    }
    let mut start: usize = 0;
    let mut length: usize = 0;
    let mut n: usize = 0;
    while n < 8
        invariant
            n <= 8,
            (start as int, length as nat) == longest_zeros(all@, n as int),
            start + length <= 8,
        decreases 8 - n,
    {
        let here: usize = count_zeros(&all, n);
        if here > length {
            start = n;
            length = here;
        }
        n = n + 1;
    }
    if length > 1 {
        push_groups(out, &all, 0, start);
        push_all(out, &[58, 58]);
        push_groups(out, &all, start + length, 8);
        assert(all@.subrange(0, start as int) =~= all@.take(start as int));
        assert(all@.subrange(start + length, 8) =~= all@.skip(start + length));
    } else {
        push_groups(out, &all, 0, 8);
        assert(all@.subrange(0, 8) =~= all@);
    }
    assert(out@ =~= old(out)@ + ipv6_text(octets@));
}

/// Appends an address in its text form.
pub fn push_ip(out: &mut Vec<u8>, ip: IpAddress)
    ensures
        final(out)@ == old(out)@ + ip_text(ip),
{
    match ip {
        IpAddress::V4(octets) => push_ipv4(out, octets),
        IpAddress::V6(octets) => push_ipv6(out, octets),
    }
}

/// Whether `b` separates fields: space, tab, line feed, form feed or carriage
/// return.
pub open spec fn is_blank(b: u8) -> bool {
    b == 32 || b == 9 || b == 10 || b == 12 || b == 13
}

pub fn blank(b: u8) -> (yes: bool)
    ensures
        yes == is_blank(b),
{
    b == 32 || b == 9 || b == 10 || b == 12 || b == 13
}

/// The first place from `at` on that is not blank, or the end.
pub open spec fn past_blanks(s: Seq<u8>, at: int) -> int
    decreases s.len() - at,
{
    if 0 <= at < s.len() && is_blank(s[at]) {
        past_blanks(s, at + 1)
    } else {
        at
    }
}

/// The first blank place from `at` on, or the end.
pub open spec fn field_end(s: Seq<u8>, at: int) -> int
    decreases s.len() - at,
{
    if 0 <= at < s.len() && !is_blank(s[at]) {
        field_end(s, at + 1)
    } else {
        at
    }
}

pub fn skip_blanks(s: &[u8], at: usize) -> (end: usize)
    requires
        at <= s@.len(),
    ensures
        end == past_blanks(s@, at as int),
        at <= end <= s@.len(),
{
    let mut i: usize = at;
    while i < s.len() && blank(s[i])
        invariant
            at <= i <= s@.len(),
            past_blanks(s@, i as int) == past_blanks(s@, at as int),
        decreases s@.len() - i,
    {
        i = i + 1;
    }
    i
}

pub fn skip_field(s: &[u8], at: usize) -> (end: usize)
    requires
        at <= s@.len(),
    ensures
        end == field_end(s@, at as int),
        at <= end <= s@.len(),
{
    let mut i: usize = at;
    while i < s.len() && !blank(s[i])
        invariant
            at <= i <= s@.len(),
            field_end(s@, i as int) == field_end(s@, at as int),
        decreases s@.len() - i,
    {
        i = i + 1;
    }
    i
}

/// The value of decimal digits, the first most significant.
pub open spec fn digits_value(s: Seq<u8>) -> nat
    decreases s.len(),
{
    if s.len() == 0 {
        0
    } else {
        digits_value(s.drop_last()) * 10 + (s.last() - 48) as nat
    }
}

pub open spec fn all_digits(s: Seq<u8>) -> bool {
    forall|i: int| 0 <= i < s.len() ==> 48 <= #[trigger] s[i] <= 57
}

/// A decimal number of at most `most`: digits, perhaps behind a plus sign.
pub open spec fn number(s: Seq<u8>, most: nat) -> Option<nat> {
    let digits = if s.len() > 0 && s[0] == 43 {
        s.skip(1)
    } else {
        s
    };
    if digits.len() > 0 && all_digits(digits) && digits_value(digits) <= most {
        Some(digits_value(digits))
    } else {
        None
    }
}

proof fn lemma_digits_value_grows(s: Seq<u8>, i: int)
    requires
        0 <= i <= s.len(),
        all_digits(s),
    ensures
        digits_value(s.take(i)) <= digits_value(s),
    decreases s.len() - i,
{
    if i < s.len() {
        assert(s.take(i + 1).drop_last() =~= s.take(i));
        lemma_digits_value_grows(s, i + 1);
    } else {
        assert(s.take(i) =~= s);
    }
}

pub fn parse_number(s: &[u8], most: u64) -> (value: Option<u64>)
    requires
        most <= 0xffff_ffff,
    ensures
        match value {
            Some(n) => number(s@, most as nat) == Some(n as nat),
            None => number(s@, most as nat) is None,
        },
{
    let start: usize = if s.len() > 0 && s[0] == 43 {
        1
    } else {
        0
    };
    let ghost digits = if s@.len() > 0 && s@[0] == 43 {
        s@.skip(1)
    } else {
        s@
    };
    if start == s.len() {
        assert(digits.len() == 0);
        return None;
    }
    let mut total: u64 = 0;
    let mut i: usize = start;
    assert(digits.take(0) =~= Seq::empty());
    while i < s.len()
        invariant
            start <= i <= s@.len(),
            most <= 0xffff_ffff,
            digits == if s@.len() > 0 && s@[0] == 43 {
                s@.skip(1)
            } else {
                s@
            },
            start == if s@.len() > 0 && s@[0] == 43 {
                1int
            } else {
                0
            },
            s@.len() > start,
            digits.len() == s@.len() - start,
            all_digits(digits.take(i - start)),
            total == digits_value(digits.take(i - start)),
            total <= most,
        decreases s@.len() - i,
    {
        let b: u8 = s[i];
        let ghost n = i - start;
        assert(digits[n] == b);
        assert(digits.take(n + 1).drop_last() =~= digits.take(n));
        if b < 48 || b > 57 {
            assert(!all_digits(digits));
            return None;
        }
        assert(all_digits(digits.take(n + 1))) by {
            assert forall|j: int| 0 <= j < n + 1 implies 48 <= #[trigger] digits.take(n + 1)[j]
                <= 57 by {
                if j < n {
                    assert(digits.take(n)[j] == digits[j]);
                }
            }
        }
        total = total * 10 + (b - 48) as u64;
        if total > most {
            proof {
                if all_digits(digits) {
                    lemma_digits_value_grows(digits, n + 1);
                }
            }
            return None;
        }
        i = i + 1;
    }
    assert(digits.take(i - start) =~= digits);
    Some(total)
}

/// The digits of a number stand for it, and neither an empty text, a sign alone
/// nor anything but digits is a number.
pub proof fn law_number_is_read_by_its_digits(s: Seq<u8>, digit: u8, most: nat)
    requires
        s.len() > 0,
        48 <= digit <= 57,
        number(s, most) is Some,
        number(s, most)->0 * 10 + (digit - 48) <= most,
    ensures
        number(s.push(digit), most) == Some((number(s, most)->0 * 10 + (digit - 48)) as nat),
        number(Seq::<u8>::empty(), most) is None,
{
    let digits = if s[0] == 43 {
        s.skip(1)
    } else {
        s
    };
    let longer = s.push(digit);
    let more = if longer[0] == 43 {
        longer.skip(1)
    } else {
        longer
    };
    assert(more =~= digits.push(digit));
    assert(more.drop_last() =~= digits);
    assert(all_digits(more));
}

/// One digit is the number that it shows.
pub proof fn law_one_digit_is_its_number(digit: u8, most: nat)
    requires
        most >= 9,
    ensures
        number(seq![digit], most) == if 48 <= digit <= 57 {
            Some((digit - 48) as nat)
        } else {
            None
        },
{
    let s = seq![digit];
    assert(s.drop_last() =~= Seq::empty());
    assert(digits_value(s) == (digit - 48) as nat) by {
        assert(digits_value(s.drop_last()) == 0);
    }
    if digit == 43 {
        assert(s.skip(1).len() == 0);
    } else if !(48 <= digit <= 57) {
        assert(!(48 <= s[0] <= 57));
    }
}

/// A number in decimal reads back.
pub proof fn law_decimal_is_read_by_its_digits(n: nat)
    ensures
        decimal(n).len() > 0,
        all_digits(decimal(n)),
        digits_value(decimal(n)) == n,
        n > 0 ==> decimal(n)[0] != 48,
    decreases n,
{
    if n < 10 {
        let s = decimal(n);
        assert(s.drop_last() =~= Seq::empty());
        assert(digits_value(s.drop_last()) == 0);
    } else {
        law_decimal_is_read_by_its_digits(n / 10);
        let s = decimal(n);
        assert(s.drop_last() =~= decimal(n / 10));
        assert forall|i: int| 0 <= i < s.len() implies 48 <= #[trigger] s[i] <= 57 by {
            if i < s.len() - 1 {
                assert(s[i] == decimal(n / 10)[i]);
            }
        }
        assert(s[0] == decimal(n / 10)[0]);
    }
}

/// A hexadecimal digit is a decimal digit, or a lower-case letter from ten on.
pub proof fn law_hexadecimal_digits_are_lower_case(n: nat)
    requires
        n < 16,
    ensures
        n < 10 ==> hex_digit(n) as char == (48 + n) as char,
        n >= 10 ==> hex_digit(n) as char == (97 + n - 10) as char,
        hexadecimal(n) == seq![hex_digit(n)],
{
}

/// A number in hexadecimal has its last digit last, and no zero in front.
pub proof fn law_hexadecimal_is_written_by_its_digits(n: nat)
    ensures
        hexadecimal(n).last() == hex_digit(n % 16),
        n >= 16 ==> hexadecimal(n).drop_last() == hexadecimal(n / 16),
        n > 0 ==> hexadecimal(n)[0] != 48,
        n <= 0xffff ==> hexadecimal(n).len() == if n < 16 {
            1int
        } else if n < 256 {
            2
        } else if n < 4096 {
            3
        } else {
            4
        },
    decreases n,
{
    if n >= 16 {
        law_hexadecimal_is_written_by_its_digits(n / 16);
        assert(hexadecimal(n).drop_last() =~= hexadecimal(n / 16));
    }
}

/// A dotted address is its four octets in decimal with dots between them.
pub proof fn law_dotted_text_has_four_numbers(octets: Seq<u8>)
    requires
        octets.len() == 4,
    ensures
        ipv4_text(octets) == decimal(octets[0] as nat).push(46) + decimal(
            octets[1] as nat,
        ).push(46) + decimal(octets[2] as nat).push(46) + decimal(octets[3] as nat),
{
    assert(ipv4_text(octets) =~= decimal(octets[0] as nat).push(46) + decimal(
        octets[1] as nat,
    ).push(46) + decimal(octets[2] as nat).push(46) + decimal(octets[3] as nat));
}

/// The groups of an address are its pairs of octets.
pub proof fn law_groups_are_pairs_of_octets(octets: Seq<u8>, at: int)
    requires
        octets.len() == 16,
        0 <= at < 8,
    ensures
        groups(octets).len() == 8,
        groups(octets)[at] == 256 * octets[2 * at] + octets[2 * at + 1],
{
    crate::bytes::law_octet_orders(octets, 2 * at, 0, 0);
}

/// A run of zero groups ends before the first group that is not zero.
pub proof fn law_run_of_zeros_is_counted(groups: Seq<u16>, at: int)
    requires
        0 <= at <= groups.len(),
    ensures
        ({
            let n = zeros_from(groups, at);
            &&& at + n <= groups.len()
            &&& forall|i: int| at <= i < at + n ==> #[trigger] groups[i] == 0
            &&& at + n < groups.len() ==> groups[at + n] != 0
        }),
    decreases groups.len() - at,
{
    if at < groups.len() && groups[at] == 0 {
        law_run_of_zeros_is_counted(groups, at + 1);
    }
}

/// The run of zeros that is left out is the first of the longest.
pub proof fn law_left_out_run_is_the_first_longest(groups: Seq<u16>, before: int)
    requires
        0 <= before <= groups.len(),
    ensures
        ({
            let (at, n) = longest_zeros(groups, before);
            &&& n > 0 ==> 0 <= at < before && n == zeros_from(groups, at)
            &&& forall|i: int| 0 <= i < before ==> #[trigger] zeros_from(groups, i) <= n
            &&& forall|i: int| 0 <= i < at ==> #[trigger] zeros_from(groups, i) < n
        }),
    decreases before,
{
    if before > 0 {
        law_left_out_run_is_the_first_longest(groups, before - 1);
    }
}

/// Fields are separated by spaces, tabs, line ends and form feeds.
pub proof fn law_blanks_are_ascii_white_space(b: u8)
    ensures
        is_blank(b) <==> b as char == ' ' || b as char == '\t' || b as char == '\n' || b as char
            == '\r' || b == 12,
{
}

/// The blanks and the field from a place on end at the first octet of the other
/// sort.
pub proof fn law_fields_and_blanks_alternate(s: Seq<u8>, at: int)
    requires
        0 <= at <= s.len(),
    ensures
        ({
            let end = past_blanks(s, at);
            &&& at <= end <= s.len()
            &&& forall|i: int| at <= i < end ==> is_blank(#[trigger] s[i])
            &&& end < s.len() ==> !is_blank(s[end])
        }),
        ({
            let end = field_end(s, at);
            &&& at <= end <= s.len()
            &&& forall|i: int| at <= i < end ==> !is_blank(#[trigger] s[i])
            &&& end < s.len() ==> is_blank(s[end])
        }),
    decreases s.len() - at,
{
    if at < s.len() {
        law_fields_and_blanks_alternate(s, at + 1);
    }
}

/// An address is written with its first longest run of zero groups left out if
/// it has two or more groups, and with all of its groups otherwise; the last four
/// octets are dotted exactly behind five zero groups and one of all ones.
pub proof fn law_ipv6_text_leaves_zeros_out(octets: Seq<u8>)
    requires
        octets.len() == 16,
    ensures
        ({
            let all = groups(octets);
            let (at, n) = longest_zeros(all, 8);
            let mapped = (forall|i: int| 0 <= i < 10 ==> #[trigger] octets[i] == 0) && octets[10]
                == 0xff && octets[11] == 0xff;
            &&& !mapped && n >= 2 ==> ipv6_text(octets) == groups_text(all.take(at)) + seq![
                58u8,
                58u8,
            ] + groups_text(all.skip(at + n))
            &&& !mapped && n < 2 ==> ipv6_text(octets) == groups_text(all)
            &&& mapped ==> ipv6_text(octets).take(7).map_values(|b: u8| b as char) == "::ffff:"@
                && ipv6_text(octets).skip(7) == ipv4_text(octets.skip(12))
        }),
{
    let all = groups(octets);
    let mapped = (forall|i: int| 0 <= i < 10 ==> #[trigger] octets[i] == 0) && octets[10] == 0xff
        && octets[11] == 0xff;
    law_groups_are_pairs_of_octets(octets, 0);
    law_groups_are_pairs_of_octets(octets, 1);
    law_groups_are_pairs_of_octets(octets, 2);
    law_groups_are_pairs_of_octets(octets, 3);
    law_groups_are_pairs_of_octets(octets, 4);
    law_groups_are_pairs_of_octets(octets, 5);
    if mapped {
        assert(octets[0] == 0 && octets[1] == 0 && octets[2] == 0 && octets[3] == 0 && octets[4]
            == 0 && octets[5] == 0 && octets[6] == 0 && octets[7] == 0 && octets[8] == 0
            && octets[9] == 0);
        assert(v4_mapped(all));
        reveal_strlit("::ffff:");
        assert(ipv6_text(octets).take(7).map_values(|b: u8| b as char) =~= "::ffff:"@);
        assert(ipv6_text(octets).skip(7) =~= ipv4_text(octets.skip(12)));
    } else if v4_mapped(all) {
        assert(octets[0] == 0 && octets[1] == 0 && octets[2] == 0 && octets[3] == 0 && octets[4]
            == 0 && octets[5] == 0 && octets[6] == 0 && octets[7] == 0 && octets[8] == 0
            && octets[9] == 0);
        assert(forall|i: int| 0 <= i < 10 ==> #[trigger] octets[i] == 0);
    }
}

/// Groups are written in hexadecimal with a colon before each but the first.
pub proof fn law_groups_are_joined_by_colons(groups: Seq<u16>, group: u16)
    ensures
        groups_text(Seq::empty()) == Seq::<u8>::empty(),
        groups_text(seq![group]) == hexadecimal(group as nat),
        groups.len() > 0 ==> groups_text(groups.push(group)) == groups_text(groups).push(58)
            + hexadecimal(group as nat),
{
    assert(groups.push(group).drop_last() =~= groups);
    if groups.len() > 0 {
        assert(groups_text(groups.push(group)) =~= groups_text(groups).push(58) + hexadecimal(
            group as nat,
        ));
    }
}

} // verus!
