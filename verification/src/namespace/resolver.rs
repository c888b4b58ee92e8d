//! Resolver files: the host's is read, the namespace's is written.

use super::config::NetworkConfig;
use crate::address_text::{address_of, law_address_text_round_trip, octets_of};
use crate::net::IpAddress;
use crate::text::ip_text;
use vstd::prelude::*;

verus! {

/// Whether `c` separates fields: any character with the white space property.
pub open spec fn is_space(c: char) -> bool {
    let n = c as u32;
    ||| 9 <= n <= 13
    ||| n == 32
    ||| n == 0x85
    ||| n == 0xa0
    ||| n == 0x1680
    ||| 0x2000 <= n <= 0x200a
    ||| n == 0x2028
    ||| n == 0x2029
    ||| n == 0x202f
    ||| n == 0x205f
    ||| n == 0x3000
}

fn space(c: char) -> (yes: bool)
    ensures
        yes == is_space(c),
{
    let n: u32 = c as u32;
    9 <= n && n <= 13 || n == 32 || n == 0x85 || n == 0xa0 || n == 0x1680 || 0x2000 <= n && n
        <= 0x200a || n == 0x2028 || n == 0x2029 || n == 0x202f || n == 0x205f || n == 0x3000
}

/// The first place from `at` on that is no space, or the end.
pub open spec fn past_spaces(s: Seq<char>, at: int) -> int
    decreases s.len() - at,
{
    if 0 <= at < s.len() && is_space(s[at]) {
        past_spaces(s, at + 1)
    } else {
        at
    }
}

/// The first space from `at` on, or the end.
pub open spec fn word_end(s: Seq<char>, at: int) -> int
    decreases s.len() - at,
{
    if 0 <= at < s.len() && !is_space(s[at]) {
        word_end(s, at + 1)
    } else {
        at
    }
}

/// The end of the line that starts at `at`.
pub open spec fn line_end(s: Seq<char>, at: int) -> int
    decreases s.len() - at,
{
    if 0 <= at < s.len() && s[at] != '\n' {
        line_end(s, at + 1)
    } else {
        at
    }
}

/// The word `nameserver`.
pub open spec fn keyword() -> Seq<char> {
    seq!['n', 'a', 'm', 'e', 's', 'e', 'r', 'v', 'e', 'r']
}

/// The address that a field is, if it is one.
pub open spec fn field_address(field: Seq<char>) -> Option<Seq<u8>> {
    if forall|i: int| 0 <= i < field.len() ==> (#[trigger] field[i]) as u32 <= 127 {
        address_of(Seq::new(field.len(), |i: int| (field[i] as u32) as u8))
    } else {
        None
    }
}

/// The address in a line whose first field is the keyword: its second field.
pub open spec fn line_address(line: Seq<char>) -> Option<Seq<u8>> {
    let first = past_spaces(line, 0);
    let first_end = word_end(line, first);
    let second = past_spaces(line, first_end);
    let second_end = word_end(line, second);
    if line.subrange(first, first_end) == keyword() {
        field_address(line.subrange(second, second_end))
    } else {
        None
    }
}

/// The first address that a line from `at` on names.
pub open spec fn nameserver_from(s: Seq<char>, at: int) -> Option<Seq<u8>>
    decreases s.len() - at + 1,
    via nameserver_ends
{
    if at < 0 || at >= s.len() {
        None
    } else {
        let end = line_end(s, at);
        match line_address(s.subrange(at, end)) {
            Some(address) => Some(address),
            None => nameserver_from(s, end + 1),
        }
    }
}

#[via_fn]
proof fn nameserver_ends(s: Seq<char>, at: int) {
    if 0 <= at < s.len() {
        lemma_line_end(s, at);
    }
}

proof fn lemma_line_end(s: Seq<char>, at: int)
    requires
        0 <= at <= s.len(),
    ensures
        at <= line_end(s, at) <= s.len(),
    decreases s.len() - at,
{
    if at < s.len() && s[at] != '\n' {
        lemma_line_end(s, at + 1);
    }
}

fn skip_spaces(s: &[char], at: usize) -> (end: usize)
    requires
        at <= s@.len(),
    ensures
        end == past_spaces(s@, at as int),
        at <= end <= s@.len(),
{
    let mut i: usize = at;
    while i < s.len() && space(s[i])
        invariant
            at <= i <= s@.len(),
            past_spaces(s@, i as int) == past_spaces(s@, at as int),
        decreases s@.len() - i,
    {
        i = i + 1;
    }
    i
}

fn skip_word(s: &[char], at: usize) -> (end: usize)
    requires
        at <= s@.len(),
    ensures
        end == word_end(s@, at as int),
        at <= end <= s@.len(),
{
    let mut i: usize = at;
    while i < s.len() && !space(s[i])
        invariant
            at <= i <= s@.len(),
            word_end(s@, i as int) == word_end(s@, at as int),
        decreases s@.len() - i,
    {
        i = i + 1;
    }
    i
}

fn find_line_end(s: &[char], at: usize) -> (end: usize)
    requires
        at <= s@.len(),
    ensures
        end == line_end(s@, at as int),
        at <= end <= s@.len(),
{
    let mut i: usize = at;
    while i < s.len() && s[i] != '\n'
        invariant
            at <= i <= s@.len(),
            line_end(s@, i as int) == line_end(s@, at as int),
        decreases s@.len() - i,
    {
        i = i + 1;
    }
    i
}

fn is_keyword(s: &[char], from: usize, to: usize) -> (yes: bool)
    requires
        from <= to <= s@.len(),
    ensures
        yes == (s@.subrange(from as int, to as int) == keyword()),
{
    let expected = ['n', 'a', 'm', 'e', 's', 'e', 'r', 'v', 'e', 'r'];
    assert(expected@ =~= keyword());
    let ghost word = s@.subrange(from as int, to as int);
    if to - from != 10 {
        assert(word.len() != keyword().len());
        return false;
    }
    let mut i: usize = 0;
    while i < 10
        invariant
            i <= 10,
            to - from == 10,
            from <= to <= s@.len(),
            expected@ == keyword(),
            word == s@.subrange(from as int, to as int),
            forall|j: int| 0 <= j < i ==> #[trigger] word[j] == keyword()[j],
        decreases 10 - i,
    {
        if s[from + i] != expected[i] {
            assert(word[i as int] != keyword()[i as int]);
            return false;
        }
        i = i + 1;
    }
    assert(word =~= keyword());
    true
}

fn read_field(s: &[char], from: usize, to: usize) -> (result: Option<IpAddress>)
    requires
        from <= to <= s@.len(),
    ensures
        match result {
            Some(ip) => field_address(s@.subrange(from as int, to as int)) == Some(octets_of(ip)),
            None => field_address(s@.subrange(from as int, to as int)) is None,
        },
{
    let ghost field = s@.subrange(from as int, to as int);
    let mut text: Vec<u8> = Vec::new();
    let mut i: usize = from;
    while i < to
        invariant
            from <= i <= to <= s@.len(),
            field == s@.subrange(from as int, to as int),
            text@.len() == i - from,
            forall|j: int|
                0 <= j < i - from ==> (#[trigger] field[j]) as u32 <= 127 && text@[j]
                    == (field[j] as u32) as u8,
        decreases to - i,
    {
        let c: char = s[i];
        assert(field[i - from] == c);
        if c as u32 > 127 {
            return None;
        }
        text.push((c as u32) as u8);
        i = i + 1;
    }
    assert(text@ =~= Seq::new(field.len(), |j: int| (field[j] as u32) as u8));
    crate::address_text::parse_address(&text)
}

fn read_line(line: &[char]) -> (result: Option<IpAddress>)
    ensures
        match result {
            Some(ip) => line_address(line@) == Some(octets_of(ip)),
            None => line_address(line@) is None,
        },
{
    let first: usize = skip_spaces(line, 0);
    let first_end: usize = skip_word(line, first);
    if !is_keyword(line, first, first_end) {
        return None;
    }
    let second: usize = skip_spaces(line, first_end);
    let second_end: usize = skip_word(line, second);
    read_field(line, second, second_end)
}

/// The characters of `s`.
fn characters(s: &str) -> (all: Vec<char>)
    ensures
        all@ == s@,
{
    let mut all: Vec<char> = Vec::new();
    for c in iter: s.chars()
        invariant
            all@ =~= iter.seq().take(iter.index()),
            iter.seq() == s@,
    {
        all.push(c);
    }
    all
}

/// Returns the first `nameserver` address in `resolv.conf` contents.
#[must_use]
pub fn first_nameserver(resolv_conf: &str) -> (result: Option<IpAddress>)
    ensures
        match result {
            Some(ip) => nameserver_from(resolv_conf@, 0) == Some(octets_of(ip)),
            None => nameserver_from(resolv_conf@, 0) is None,
        },
{
    let all = characters(resolv_conf);
    let size: usize = all.len();
    let mut at: usize = 0;
    while at < size
        invariant
            all@ == resolv_conf@,
            size == all@.len(),
            at <= size,
            nameserver_from(all@, 0) == nameserver_from(all@, at as int),
        decreases size - at,
    {
        let end: usize = find_line_end(&all, at);
        let line = vstd::slice::slice_subrange(all.as_slice(), at, end);
        match read_line(line) {
            Some(ip) => return Some(ip),
            None => {},
        }
        if end == size {
            assert(nameserver_from(all@, end + 1) is None);
            return None;
        }
        at = end + 1;
    }
    None
}

/// The line that names a resolver.
pub open spec fn resolver_line(ip: IpAddress) -> Seq<u8> {
    seq![110u8, 97u8, 109u8, 101u8, 115u8, 101u8, 114u8, 118u8, 101u8, 114u8, 32u8] + ip_text(ip)
        + seq![10u8]
}

/// The resolver file of the namespace: a line for each gateway.
pub open spec fn resolver_file(network: NetworkConfig) -> Seq<u8> {
    (match network.gateway_ipv4 {
        Some(gateway) => resolver_line(IpAddress::V4(gateway)),
        None => Seq::empty(),
    }) + match network.gateway_ipv6 {
        Some(gateway) => resolver_line(IpAddress::V6(gateway)),
        None => Seq::empty(),
    }
}

fn push_resolver(out: &mut Vec<u8>, ip: IpAddress)
    ensures
        final(out)@ == old(out)@ + resolver_line(ip),
{
    let word = [110, 97, 109, 101, 115, 101, 114, 118, 101, 114, 32];
    assert(word@ =~= seq![
        110u8,
        97u8,
        109u8,
        101u8,
        115u8,
        101u8,
        114u8,
        118u8,
        101u8,
        114u8,
        32u8,
    ]);
    crate::text::push_all(out, &word);
    crate::text::push_ip(out, ip);
    out.push(10);
    assert(out@ =~= old(out)@ + resolver_line(ip));
}

/// Namespace `resolv.conf` pointing every enabled family at the virtual
/// gateway, where the data plane intercepts 53/UDP and 53/TCP.
#[must_use]
pub fn gateway_resolv_conf(network: &NetworkConfig) -> (contents: Vec<u8>)
    ensures
        contents@ == resolver_file(*network),
{
    let mut contents: Vec<u8> = Vec::new();
    match network.gateway_ipv4 {
        Some(gateway) => push_resolver(&mut contents, IpAddress::V4(gateway)),
        None => {},
    }
    match network.gateway_ipv6 {
        Some(gateway) => push_resolver(&mut contents, IpAddress::V6(gateway)),
        None => {},
    }
    assert(contents@ =~= resolver_file(*network));
    contents
}

/// ASCII octets as characters.
pub open spec fn as_characters(s: Seq<u8>) -> Seq<char> {
    Seq::new(s.len(), |i: int| s[i] as char)
}

proof fn lemma_spaces_are(s: Seq<char>, at: int, end: int)
    requires
        0 <= at <= end <= s.len(),
        forall|i: int| at <= i < end ==> is_space(#[trigger] s[i]),
        end < s.len() ==> !is_space(s[end]),
    ensures
        past_spaces(s, at) == end,
    decreases end - at,
{
    if at < end {
        lemma_spaces_are(s, at + 1, end);
    }
}

proof fn lemma_word_is(s: Seq<char>, at: int, end: int)
    requires
        0 <= at <= end <= s.len(),
        forall|i: int| at <= i < end ==> !is_space(#[trigger] s[i]),
        end < s.len() ==> is_space(s[end]),
    ensures
        word_end(s, at) == end,
    decreases end - at,
{
    if at < end {
        lemma_word_is(s, at + 1, end);
    }
}

proof fn lemma_line_is(s: Seq<char>, at: int, end: int)
    requires
        0 <= at <= end <= s.len(),
        forall|i: int| at <= i < end ==> #[trigger] s[i] != '\n',
        end < s.len() ==> s[end] == '\n',
    ensures
        line_end(s, at) == end,
    decreases end - at,
{
    if at < end {
        lemma_line_is(s, at + 1, end);
    }
}

/// A line that names a resolver is read as its address, whatever follows it.
proof fn lemma_resolver_line_reads(ip: IpAddress, rest: Seq<u8>)
    ensures
        nameserver_from(as_characters(resolver_line(ip) + rest), 0) == Some(octets_of(ip)),
{
    let text = ip_text(ip);
    let n = text.len() as int;
    let all = as_characters(resolver_line(ip) + rest);
    let bytes = resolver_line(ip) + rest;
    crate::address_text::lemma_address_text_octets(ip);
    assert forall|i: int| 0 <= i < 11 + n implies #[trigger] all[i] != '\n' by {
        if i >= 11 {
            assert(bytes[i] == text[i - 11]);
        }
    }
    assert(bytes[11 + n] == 10);
    lemma_line_is(all, 0, 11 + n);
    let line = all.subrange(0, 11 + n);
    assert(line.subrange(0, 10) =~= keyword());
    assert forall|i: int| 0 <= i < 10 implies !is_space(#[trigger] line[i]) by {
        assert(line[i] == keyword()[i]);
    }
    assert(line[10] == ' ');
    assert forall|i: int| 11 <= i < 11 + n implies !is_space(#[trigger] line[i]) by {
        assert(bytes[i] == text[i - 11]);
    }
    lemma_spaces_are(line, 0, 0);
    lemma_word_is(line, 0, 10);
    lemma_spaces_are(line, 10, 11);
    lemma_word_is(line, 11, 11 + n);
    let field = line.subrange(11, 11 + n);
    assert forall|i: int| 0 <= i < field.len() implies (#[trigger] field[i]) as u32 <= 127 && (
    field[i] as u32) as u8 == text[i] by {
        assert(bytes[11 + i] == text[i]);
    }
    assert(Seq::new(field.len(), |i: int| (field[i] as u32) as u8) =~= text);
    law_address_text_round_trip(ip);
}

/// In a namespace, the first resolver is the gateway: the IPv4 gateway if there
/// is one, otherwise the IPv6 gateway.
pub proof fn law_namespace_resolver_is_the_gateway(network: NetworkConfig)
    ensures
        nameserver_from(as_characters(resolver_file(network)), 0) == match (
            network.gateway_ipv4,
            network.gateway_ipv6,
        ) {
            (Some(gateway), _) => Some(gateway@),
            (None, Some(gateway)) => Some(gateway@),
            (None, None) => None,
        },
{
    match network.gateway_ipv4 {
        Some(gateway) => {
            let rest = match network.gateway_ipv6 {
                Some(other) => resolver_line(IpAddress::V6(other)),
                None => Seq::empty(),
            };
            lemma_resolver_line_reads(IpAddress::V4(gateway), rest);
        },
        None => match network.gateway_ipv6 {
            Some(gateway) => {
                let line = resolver_line(IpAddress::V6(gateway));
                lemma_resolver_line_reads(IpAddress::V6(gateway), Seq::empty());
                assert(Seq::<u8>::empty() + line =~= line + Seq::<u8>::empty());
            },
            None => {},
        },
    }
}

/// A line is read by its words: the first must be `nameserver`, the second is the
/// address, and what follows it does not count.
pub proof fn law_line_is_read_by_its_words(
    lead: Seq<char>,
    word: Seq<char>,
    gap: Seq<char>,
    field: Seq<char>,
    tail: Seq<char>,
)
    requires
        forall|i: int| 0 <= i < lead.len() ==> is_space(#[trigger] lead[i]),
        forall|i: int| 0 <= i < word.len() ==> !is_space(#[trigger] word[i]),
        forall|i: int| 0 <= i < gap.len() ==> is_space(#[trigger] gap[i]),
        forall|i: int| 0 <= i < field.len() ==> !is_space(#[trigger] field[i]),
        word.len() > 0 && gap.len() > 0 && field.len() > 0,
        tail.len() == 0 || is_space(tail[0]),
    ensures
        ({
            let line = lead + word + gap + field + tail;
            line_address(line) == if word == "nameserver"@ {
                field_address(field)
            } else {
                None
            }
        }),
{
    let line = lead + word + gap + field + tail;
    let a = lead.len() as int;
    let b = a + word.len();
    let c = b + gap.len();
    let d = c + field.len();
    assert forall|i: int| 0 <= i < a implies is_space(#[trigger] line[i]) by {
        assert(line[i] == lead[i]);
    }
    assert forall|i: int| a <= i < b implies !is_space(#[trigger] line[i]) by {
        assert(line[i] == word[i - a]);
    }
    assert forall|i: int| b <= i < c implies is_space(#[trigger] line[i]) by {
        assert(line[i] == gap[i - b]);
    }
    assert forall|i: int| c <= i < d implies !is_space(#[trigger] line[i]) by {
        assert(line[i] == field[i - c]);
    }
    if tail.len() > 0 {
        assert(line[d] == tail[0]);
    }
    lemma_spaces_are(line, 0, a);
    lemma_word_is(line, a, b);
    lemma_spaces_are(line, b, c);
    lemma_word_is(line, c, d);
    assert(line.subrange(a, b) =~= word);
    assert(line.subrange(c, d) =~= field);
    reveal_strlit("nameserver");
    assert(keyword() =~= "nameserver"@);
}

/// Lines are looked at in their order, and the first that names an address
/// counts.
pub proof fn law_first_named_resolver_counts(line: Seq<char>, rest: Seq<char>)
    requires
        forall|i: int| 0 <= i < line.len() ==> #[trigger] line[i] != '\n',
    ensures
        ({
            let text = line.push('\n') + rest;
            nameserver_from(text, 0) == match line_address(line) {
                Some(address) => Some(address),
                None => nameserver_from(text, line.len() + 1int),
            }
        }),
        nameserver_from(Seq::empty(), 0) is None,
{
    let text = line.push('\n') + rest;
    let n = line.len() as int;
    assert forall|i: int| 0 <= i < n implies #[trigger] text[i] != '\n' by {
        assert(text[i] == line[i]);
    }
    assert(text[n] == '\n');
    lemma_line_is(text, 0, n);
    assert(text.subrange(0, n) =~= line);
}

/// ASCII white space is the tab to the carriage return and the space.
pub proof fn law_fields_are_separated_by_white_space(c: char)
    ensures
        c as u32 <= 127 ==> (is_space(c) <==> c == ' ' || c == '\t' || c == '\n' || c == '\r'
            || c as u32 == 11 || c as u32 == 12),
{
}

/// The namespace's file names each gateway in a line of its own, `nameserver` and
/// the address.
pub proof fn law_resolver_file_names_the_gateways(network: NetworkConfig, ip: IpAddress)
    ensures
        resolver_line(ip).take(11).map_values(|b: u8| b as char) == "nameserver "@,
        resolver_line(ip).subrange(11, resolver_line(ip).len() - 1) == ip_text(ip),
        resolver_line(ip).last() as char == '\n',
        network.gateway_ipv4 is None && network.gateway_ipv6 is None ==> resolver_file(
            network,
        ).len() == 0,
        network.gateway_ipv4 is Some && network.gateway_ipv6 is None ==> resolver_file(network)
            == resolver_line(IpAddress::V4(network.gateway_ipv4.unwrap())),
        network.gateway_ipv4 is None && network.gateway_ipv6 is Some ==> resolver_file(network)
            == resolver_line(IpAddress::V6(network.gateway_ipv6.unwrap())),
        network.gateway_ipv4 is Some && network.gateway_ipv6 is Some ==> resolver_file(network)
            == resolver_line(IpAddress::V4(network.gateway_ipv4.unwrap())) + resolver_line(
            IpAddress::V6(network.gateway_ipv6.unwrap()),
        ),
{
    reveal_strlit("nameserver ");
    assert(resolver_line(ip).take(11).map_values(|b: u8| b as char) =~= "nameserver "@);
    assert(resolver_line(ip).subrange(11, resolver_line(ip).len() - 1) =~= ip_text(ip));
    if network.gateway_ipv6 is None && network.gateway_ipv4 is Some {
        assert(resolver_file(network) =~= resolver_line(
            IpAddress::V4(network.gateway_ipv4.unwrap()),
        ));
    }
    if network.gateway_ipv4 is None && network.gateway_ipv6 is Some {
        assert(resolver_file(network) =~= resolver_line(
            IpAddress::V6(network.gateway_ipv6.unwrap()),
        ));
    }
}

} // verus!
