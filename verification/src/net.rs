//! IP addresses as numbers and as text.
use crate::text::{
    all_digits, char_lists, copy_range, decimal, digits_bounded, digits_value, find_first,
    find_last, find_text, first_at, is_digit, last_at, law_bounded_numbers_are_taken,
    law_numbers_read_back, law_places_are_found, law_separators_part_pieces, occurs_at,
    parse_digits, pieces, push_decimal, split_on, trimmed, white_space,
};
use vstd::prelude::*;

verus! {

/// An IP address; its number is its bytes, most significant first.
#[derive(Clone, Copy, Debug, PartialEq, Eq, Structural)]
pub enum IpAddr {
    V4(u32),
    V6(u128),
}

// ---------------------------------------------------------------------------
// IPv4 text
// ---------------------------------------------------------------------------

/// Whether a text is one of the four numbers of an IPv4 address: up to three
/// digits without a leading zero, at most 255.
pub open spec fn is_octet(s: Seq<char>) -> bool {
    &&& 1 <= s.len() <= 3
    &&& all_digits(s)
    &&& s.len() > 1 ==> s[0] != '0'
    &&& digits_value(s) <= 255
}

/// The IPv4 address that a text denotes.
pub open spec fn ipv4_value(s: Seq<char>) -> Option<u32> {
    let p = pieces(s, '.');
    if p.len() == 4 && is_octet(p[0]) && is_octet(p[1]) && is_octet(p[2]) && is_octet(p[3]) {
        Some(
            (digits_value(p[0]) * 0x100_0000 + digits_value(p[1]) * 0x1_0000 + digits_value(p[2])
                * 0x100 + digits_value(p[3])) as u32,
        )
    } else {
        None
    }
}

fn parse_octet(chars: &[char]) -> (octet: Option<u32>)
    ensures
        match octet {
            Some(n) => is_octet(chars@) && n == digits_value(chars@) && n <= 255,
            None => !is_octet(chars@),
        },
{
    if chars.len() == 0 || chars.len() > 3 {
        return None;
    }
    let mut n: u32 = 0;
    let mut i: usize = 0;
    while i < chars.len()
        invariant
            i <= chars.len() <= 3,
            forall|j: int| 0 <= j < i ==> is_digit(#[trigger] chars@[j]),
            n == digits_value(chars@.take(i as int)),
            i == 0 ==> n == 0,
            i == 1 ==> n <= 9,
            i == 2 ==> n <= 99,
            i == 3 ==> n <= 999,
        decreases chars.len() - i,
    {
        let c = chars[i];
        if !(c >= '0' && c <= '9') {
            assert(!is_digit(chars@[i as int]));
            return None;
        }
        assert(chars@.take(i + 1).drop_last() =~= chars@.take(i as int));
        n = n * 10 + (c as u32 - 48);
        i += 1;
    }
    assert(chars@.take(chars@.len() as int) =~= chars@);
    if chars.len() > 1 && chars[0] == '0' {
        return None;
    }
    if n > 255 {
        return None;
    }
    Some(n)
}

/// Reads an IPv4 address.
pub fn parse_ipv4(chars: &[char]) -> (ip: Option<u32>)
    ensures
        ip == ipv4_value(chars@),
{
    let parts = split_on(chars, '.');
    let ghost p = pieces(chars@, '.');
    assert(parts.len() == p.len());
    if parts.len() != 4 {
        return None;
    }
    assert(char_lists(parts@)[0] == parts@[0]@);
    assert(char_lists(parts@)[1] == parts@[1]@);
    assert(char_lists(parts@)[2] == parts@[2]@);
    assert(char_lists(parts@)[3] == parts@[3]@);
    let a = parse_octet(parts[0].as_slice());
    let b = parse_octet(parts[1].as_slice());
    let c = parse_octet(parts[2].as_slice());
    let d = parse_octet(parts[3].as_slice());
    match (a, b, c, d) {
        (Some(a), Some(b), Some(c), Some(d)) => Some(a * 0x100_0000 + b * 0x1_0000 + c * 0x100 + d),
        _ => None,
    }
}

/// The four numbers of an IPv4 address.
pub open spec fn ipv4_octet(ip: u32, i: int) -> nat {
    if i == 0 {
        (ip / 0x100_0000) as nat
    } else if i == 1 {
        (ip / 0x1_0000 % 0x100) as nat
    } else if i == 2 {
        (ip / 0x100 % 0x100) as nat
    } else {
        (ip % 0x100) as nat
    }
}

/// An IPv4 address in dotted decimal.
pub open spec fn ipv4_text(ip: u32) -> Seq<char> {
    (decimal(ipv4_octet(ip, 0)).push('.') + decimal(ipv4_octet(ip, 1))).push('.') + (decimal(
        ipv4_octet(ip, 2),
    ).push('.') + decimal(ipv4_octet(ip, 3)))
}

/// Appends an IPv4 address in dotted decimal.
pub fn push_ipv4(out: &mut String, ip: u32)
    ensures
        final(out)@ == old(out)@ + ipv4_text(ip),
{
    push_decimal(out, (ip / 0x100_0000) as u64);
    out.push('.');
    push_decimal(out, (ip / 0x1_0000 % 0x100) as u64);
    out.push('.');
    push_decimal(out, (ip / 0x100 % 0x100) as u64);
    out.push('.');
    push_decimal(out, (ip % 0x100) as u64);
    assert(out@ =~= old(out)@ + ipv4_text(ip));
}

// ---------------------------------------------------------------------------
// IPv6 text
// ---------------------------------------------------------------------------

/// The value of a hexadecimal digit of either case.
pub open spec fn hex_digit(c: char) -> Option<nat> {
    if '0' <= c <= '9' {
        Some((c as nat - 48) as nat)
    } else if 'a' <= c <= 'f' {
        Some((c as nat - 87) as nat)
    } else if 'A' <= c <= 'F' {
        Some((c as nat - 55) as nat)
    } else {
        None
    }
}

/// The number that hexadecimal digits denote.
pub open spec fn hex_value(s: Seq<char>) -> Option<nat>
    decreases s.len(),
{
    if s.len() == 0 {
        Some(0)
    } else {
        match (hex_value(s.drop_last()), hex_digit(s.last())) {
            (Some(high), Some(low)) => Some(high * 16 + low),
            _ => None,
        }
    }
}

/// A group of an IPv6 address: one to four hexadecimal digits.
pub open spec fn hex_group(s: Seq<char>) -> Option<u16> {
    if 1 <= s.len() <= 4 && hex_value(s) is Some {
        Some(hex_value(s)->0 as u16)
    } else {
        None
    }
}

/// The groups that parts denote, if every part is one.
pub open spec fn hex_groups(parts: Seq<Seq<char>>) -> Option<Seq<u16>>
    decreases parts.len(),
{
    if parts.len() == 0 {
        Some(Seq::empty())
    } else {
        match (hex_groups(parts.drop_last()), hex_group(parts.last())) {
            (Some(groups), Some(group)) => Some(groups.push(group)),
            _ => None,
        }
    }
}

/// The groups of a text before a gap.
pub open spec fn head_groups(s: Seq<char>) -> Option<Seq<u16>> {
    if s.len() == 0 {
        Some(Seq::empty())
    } else {
        hex_groups(pieces(s, ':'))
    }
}

/// The groups of a text that ends the address: its last part may be an IPv4
/// address, which makes two groups.
pub open spec fn tail_groups(s: Seq<char>) -> Option<Seq<u16>> {
    if s.len() == 0 {
        Some(Seq::empty())
    } else {
        let parts = pieces(s, ':');
        match (hex_groups(parts.drop_last()), hex_group(parts.last()), ipv4_value(parts.last())) {
            (Some(groups), Some(group), _) => Some(groups.push(group)),
            (Some(groups), None, Some(ip)) => Some(
                groups.push((ip / 0x1_0000) as u16).push((ip % 0x1_0000) as u16),
            ),
            _ => None,
        }
    }
}

/// The number that groups make, the first being the most significant.
pub open spec fn groups_value(groups: Seq<u16>) -> nat
    decreases groups.len(),
{
    if groups.len() == 0 {
        0
    } else {
        groups_value(groups.drop_last()) * 0x1_0000 + groups.last() as nat
    }
}

/// Whether the first gap of an address stands at `at`.
pub open spec fn gap_at(s: Seq<char>, at: int) -> bool {
    occurs_at(s, seq![':', ':'], at) && forall|j: int|
        0 <= j < at ==> !occurs_at(s, seq![':', ':'], j)
}

/// The groups of an IPv6 address. Without a gap there are eight; a gap stands for
/// one or more groups of zero.
pub open spec fn ipv6_groups(s: Seq<char>) -> Option<Seq<u16>> {
    if exists|at: int| gap_at(s, at) {
        let at = choose|at: int| gap_at(s, at);
        match (head_groups(s.take(at)), tail_groups(s.skip(at + 2))) {
            (Some(head), Some(tail)) => if head.len() + tail.len() <= 7 {
                Some(head + Seq::new((8 - head.len() - tail.len()) as nat, |i: int| 0u16) + tail)
            } else {
                None
            },
            _ => None,
        }
    } else {
        match tail_groups(s) {
            Some(groups) if groups.len() == 8 => Some(groups),
            _ => None,
        }
    }
}

/// The IPv6 address that a text denotes.
pub open spec fn ipv6_value(s: Seq<char>) -> Option<u128> {
    match ipv6_groups(s) {
        Some(groups) => Some(groups_value(groups) as u128),
        None => None,
    }
}

fn parse_hex_group(chars: &[char]) -> (group: Option<u16>)
    ensures
        group == hex_group(chars@),
{
    if chars.len() == 0 || chars.len() > 4 {
        return None;
    }
    let mut n: u32 = 0;
    let mut i: usize = 0;
    while i < chars.len()
        invariant
            i <= chars.len() <= 4,
            hex_value(chars@.take(i as int)) == Some(n as nat),
            i == 0 ==> n == 0,
            i == 1 ==> n < 0x10,
            i == 2 ==> n < 0x100,
            i == 3 ==> n < 0x1000,
            i == 4 ==> n < 0x1_0000,
        decreases chars.len() - i,
    {
        let c = chars[i];
        assert(chars@.take(i + 1).drop_last() =~= chars@.take(i as int));
        let d: u32 = if c >= '0' && c <= '9' {
            c as u32 - 48
        } else if c >= 'a' && c <= 'f' {
            c as u32 - 87
        } else if c >= 'A' && c <= 'F' {
            c as u32 - 55
        } else {
            proof {
                assert(hex_value(chars@.take(i + 1)) is None);
                lemma_hex_stays_none(chars@, i + 1);
            }
            return None;
        };
        n = n * 16 + d;
        i += 1;
    }
    assert(chars@.take(chars@.len() as int) =~= chars@);
    Some(n as u16)
}

proof fn lemma_hex_stays_none(s: Seq<char>, n: int)
    requires
        0 <= n <= s.len(),
        hex_value(s.take(n)) is None,
    ensures
        hex_value(s) is None,
    decreases s.len() - n,
{
    if n < s.len() {
        assert(s.take(n + 1).drop_last() =~= s.take(n));
        lemma_hex_stays_none(s, n + 1);
    } else {
        assert(s.take(n) =~= s);
    }
}

proof fn lemma_groups_stay_none(parts: Seq<Seq<char>>, n: int)
    requires
        0 <= n <= parts.len(),
        hex_groups(parts.take(n)) is None,
    ensures
        hex_groups(parts) is None,
    decreases parts.len() - n,
{
    if n < parts.len() {
        assert(parts.take(n + 1).drop_last() =~= parts.take(n));
        lemma_groups_stay_none(parts, n + 1);
    } else {
        assert(parts.take(n) =~= parts);
    }
}

fn parse_hex_groups(parts: &[Vec<char>], n: usize) -> (groups: Option<Vec<u16>>)
    requires
        n <= parts.len(),
    ensures
        match groups {
            Some(groups) => hex_groups(char_lists(parts@).take(n as int)) == Some(groups@),
            None => hex_groups(char_lists(parts@).take(n as int)) is None,
        },
{
    let ghost texts = char_lists(parts@);
    let mut groups: Vec<u16> = Vec::new();
    let mut i: usize = 0;
    assert(hex_groups(texts.take(0)) == Some(groups@));
    while i < n
        invariant
            i <= n <= parts.len(),
            texts == char_lists(parts@),
            hex_groups(texts.take(i as int)) == Some(groups@),
        decreases n - i,
    {
        assert(texts.take(i + 1).drop_last() =~= texts.take(i as int));
        assert(texts[i as int] == parts@[i as int]@);
        match parse_hex_group(parts[i].as_slice()) {
            Some(group) => {
                groups.push(group);
            },
            None => {
                proof {
                    assert(texts.take(n as int).take(i + 1) =~= texts.take(i + 1));
                    lemma_groups_stay_none(texts.take(n as int), i + 1);
                }
                return None;
            },
        }
        i += 1;
    }
    Some(groups)
}

fn parse_head(chars: &[char]) -> (groups: Option<Vec<u16>>)
    ensures
        match groups {
            Some(groups) => head_groups(chars@) == Some(groups@),
            None => head_groups(chars@) is None,
        },
{
    if chars.len() == 0 {
        let groups: Vec<u16> = Vec::new();
        assert(groups@ =~= Seq::<u16>::empty());
        return Some(groups);
    }
    let parts = split_on(chars, ':');
    assert(char_lists(parts@).take(parts@.len() as int) =~= char_lists(parts@));
    parse_hex_groups(parts.as_slice(), parts.len())
}

fn parse_tail(chars: &[char]) -> (groups: Option<Vec<u16>>)
    ensures
        match groups {
            Some(groups) => tail_groups(chars@) == Some(groups@),
            None => tail_groups(chars@) is None,
        },
{
    if chars.len() == 0 {
        let groups: Vec<u16> = Vec::new();
        assert(groups@ =~= Seq::<u16>::empty());
        return Some(groups);
    }
    let parts = split_on(chars, ':');
    let n: usize = parts.len();
    let ghost texts = char_lists(parts@);
    assert(texts.take(n - 1) =~= texts.drop_last());
    assert(texts.last() == parts@[n - 1]@);
    let front = parse_hex_groups(parts.as_slice(), n - 1);
    let mut groups = match front {
        Some(groups) => groups,
        None => {
            return None;
        },
    };
    match parse_hex_group(parts[n - 1].as_slice()) {
        Some(group) => {
            groups.push(group);
            Some(groups)
        },
        None => match parse_ipv4(parts[n - 1].as_slice()) {
            Some(ip) => {
                groups.push((ip / 0x1_0000) as u16);
                groups.push((ip % 0x1_0000) as u16);
                Some(groups)
            },
            None => None,
        },
    }
}

fn join_groups(groups: &[u16]) -> (n: u128)
    requires
        groups.len() <= 8,
    ensures
        n == groups_value(groups@),
{
    let mut n: u128 = 0;
    let mut i: usize = 0;
    while i < groups.len()
        invariant
            i <= groups.len() <= 8,
            n == groups_value(groups@.take(i as int)),
            i == 0 ==> n == 0,
            i == 1 ==> n < 0x1_0000,
            i == 2 ==> n < 0x1_0000_0000,
            i == 3 ==> n < 0x1_0000_0000_0000,
            i == 4 ==> n < 0x1_0000_0000_0000_0000,
            i == 5 ==> n < 0x1_0000_0000_0000_0000_0000,
            i == 6 ==> n < 0x1_0000_0000_0000_0000_0000_0000,
            i == 7 ==> n < 0x1_0000_0000_0000_0000_0000_0000_0000,
        decreases groups.len() - i,
    {
        assert(groups@.take(i + 1).drop_last() =~= groups@.take(i as int));
        n = n * 0x1_0000 + groups[i] as u128;
        i += 1;
    }
    assert(groups@.take(groups@.len() as int) =~= groups@);
    n
}

/// Reads an IPv6 address.
pub fn parse_ipv6(chars: &[char]) -> (ip: Option<u128>)
    ensures
        ip == ipv6_value(chars@),
{
    let mut gap: Vec<char> = Vec::new();
    gap.push(':');
    gap.push(':');
    assert(gap@ =~= seq![':', ':']);
    match find_text(chars, gap.as_slice()) {
        Some(at) => {
            proof {
                assert(gap_at(chars@, at as int));
                let other = choose|at: int| gap_at(chars@, at);
                assert(other == at);
                assert(chars@.skip(at as int).len() >= 2);
            }
            let head_chars = copy_range(chars, 0, at);
            let tail_chars = copy_range(chars, at + 2, chars.len());
            assert(head_chars@ =~= chars@.take(at as int));
            assert(tail_chars@ =~= chars@.skip(at + 2));
            let mut groups = match parse_head(head_chars.as_slice()) {
                Some(groups) => groups,
                None => {
                    return None;
                },
            };
            let tail = match parse_tail(tail_chars.as_slice()) {
                Some(groups) => groups,
                None => {
                    return None;
                },
            };
            let ghost head = groups@;
            if groups.len() > 7 || tail.len() > 7 - groups.len() {
                return None;
            }
            let zeros: usize = 8 - groups.len() - tail.len();
            let ghost filler = Seq::new(zeros as nat, |i: int| 0u16);
            let mut i: usize = 0;
            assert(groups@ =~= head + filler.take(0));
            while i < zeros
                invariant
                    i <= zeros <= 8,
                    filler == Seq::new(zeros as nat, |i: int| 0u16),
                    groups@ == head + filler.take(i as int),
                decreases zeros - i,
            {
                groups.push(0);
                i += 1;
                assert(groups@ =~= head + filler.take(i as int));
            }
            assert(filler.take(zeros as int) =~= filler);
            let mut j: usize = 0;
            assert(groups@ =~= head + filler + tail@.take(0));
            while j < tail.len()
                invariant
                    j <= tail.len(),
                    groups@ == head + filler + tail@.take(j as int),
                decreases tail.len() - j,
            {
                groups.push(tail[j]);
                j += 1;
                assert(groups@ =~= head + filler + tail@.take(j as int));
            }
            assert(tail@.take(tail@.len() as int) =~= tail@);
            assert(groups.len() == 8);
            Some(join_groups(groups.as_slice()))
        },
        None => {
            assert(!exists|at: int| gap_at(chars@, at)) by {
                assert(forall|at: int| !occurs_at(chars@, seq![':', ':'], at));
            }
            match parse_tail(chars) {
                Some(groups) => if groups.len() == 8 {
                    Some(join_groups(groups.as_slice()))
                } else {
                    None
                },
                None => None,
            }
        },
    }
}

/// The address that a text denotes.
pub open spec fn ip_value(s: Seq<char>) -> Option<IpAddr> {
    match ipv4_value(s) {
        Some(ip) => Some(IpAddr::V4(ip)),
        None => match ipv6_value(s) {
            Some(ip) => Some(IpAddr::V6(ip)),
            None => None,
        },
    }
}

/// Reads an address of either family.
pub fn parse_ip(chars: &[char]) -> (ip: Option<IpAddr>)
    ensures
        ip == ip_value(chars@),
{
    match parse_ipv4(chars) {
        Some(ip) => Some(IpAddr::V4(ip)),
        None => match parse_ipv6(chars) {
            Some(ip) => Some(IpAddr::V6(ip)),
            None => None,
        },
    }
}

/// The IPv6 address of a socket address: the address, and perhaps a zone.
pub open spec fn zoned_value(s: Seq<char>) -> Option<u128> {
    match first_at(s, '%') {
        None => ipv6_value(s),
        Some(at) => if digits_bounded(s.skip(at + 1), u32::MAX as u64) is Some {
            ipv6_value(s.take(at))
        } else {
            None
        },
    }
}

/// The address and port that a text denotes.
pub open spec fn socket_value(s: Seq<char>) -> Option<(IpAddr, u16)> {
    match last_at(s, ':') {
        None => None,
        Some(at) => {
            let head = s.take(at);
            match digits_bounded(s.skip(at + 1), u16::MAX as u64) {
                None => None,
                Some(port) => match ipv4_value(head) {
                    Some(ip) => Some((IpAddr::V4(ip), port as u16)),
                    None => if head.len() >= 2 && head[0] == '[' && head.last() == ']' {
                        match zoned_value(head.subrange(1, head.len() - 1)) {
                            Some(ip) => Some((IpAddr::V6(ip), port as u16)),
                            None => None,
                        }
                    } else {
                        None
                    },
                },
            }
        },
    }
}

fn parse_zoned(chars: &[char]) -> (ip: Option<u128>)
    ensures
        ip == zoned_value(chars@),
{
    match find_first(chars, '%') {
        None => parse_ipv6(chars),
        Some(at) => {
            let zone = copy_range(chars, at + 1, chars.len());
            assert(zone@ =~= chars@.skip(at + 1));
            if parse_digits(zone.as_slice(), 0xffff_ffff).is_none() {
                return None;
            }
            let head = copy_range(chars, 0, at);
            assert(head@ =~= chars@.take(at as int));
            parse_ipv6(head.as_slice())
        },
    }
}

/// Reads an address and a port.
pub fn parse_socket(chars: &[char]) -> (socket: Option<(IpAddr, u16)>)
    ensures
        socket == socket_value(chars@),
{
    let at = match find_last(chars, ':') {
        None => {
            return None;
        },
        Some(at) => at,
    };
    let tail = copy_range(chars, at + 1, chars.len());
    assert(tail@ =~= chars@.skip(at + 1));
    let port: u16 = match parse_digits(tail.as_slice(), 0xffff) {
        None => {
            return None;
        },
        Some(port) => port as u16,
    };
    let head = copy_range(chars, 0, at);
    assert(head@ =~= chars@.take(at as int));
    if let Some(ip) = parse_ipv4(head.as_slice()) {
        return Some((IpAddr::V4(ip), port));
    }
    let n: usize = head.len();
    if n < 2 || head[0] != '[' || head[n - 1] != ']' {
        return None;
    }
    let inner = copy_range(head.as_slice(), 1, n - 1);
    match parse_zoned(inner.as_slice()) {
        Some(ip) => Some((IpAddr::V6(ip), port)),
        None => None,
    }
}

// ---------------------------------------------------------------------------
// Writing IPv6 addresses
// ---------------------------------------------------------------------------

/// Group `i` of an IPv6 address, counted from the front.
pub open spec fn ipv6_group(ip: u128, i: int) -> u16 {
    if i == 0 {
        (ip / 0x1_0000_0000_0000_0000_0000_0000_0000) as u16
    } else if i == 1 {
        (ip / 0x1_0000_0000_0000_0000_0000_0000 % 0x1_0000) as u16
    } else if i == 2 {
        (ip / 0x1_0000_0000_0000_0000_0000 % 0x1_0000) as u16
    } else if i == 3 {
        (ip / 0x1_0000_0000_0000_0000 % 0x1_0000) as u16
    } else if i == 4 {
        (ip / 0x1_0000_0000_0000 % 0x1_0000) as u16
    } else if i == 5 {
        (ip / 0x1_0000_0000 % 0x1_0000) as u16
    } else if i == 6 {
        (ip / 0x1_0000 % 0x1_0000) as u16
    } else {
        (ip % 0x1_0000) as u16
    }
}

/// The eight groups of an IPv6 address.
pub open spec fn groups_of(ip: u128) -> Seq<u16> {
    Seq::new(8, |i: int| ipv6_group(ip, i))
}

/// The small hexadecimal digit of a number below sixteen.
pub open spec fn hex_char(d: nat) -> char {
    if d < 10 {
        (48 + d) as char
    } else {
        (87 + d) as char
    }
}

/// `n` in hexadecimal, without leading zeros.
pub open spec fn hex(n: nat) -> Seq<char>
    decreases n,
{
    if n < 16 {
        seq![hex_char(n)]
    } else {
        hex(n / 16).push(hex_char(n % 16))
    }
}

/// Groups in hexadecimal between colons.
pub open spec fn colon_groups(groups: Seq<u16>) -> Seq<char>
    decreases groups.len(),
{
    if groups.len() == 0 {
        Seq::empty()
    } else if groups.len() == 1 {
        hex(groups[0] as nat)
    } else {
        colon_groups(groups.drop_last()).push(':') + hex(groups.last() as nat)
    }
}

/// Whether `len` groups from `start` on are zero.
pub open spec fn zero_run(groups: Seq<u16>, start: int, len: int) -> bool {
    0 <= start && 0 <= len && start + len <= groups.len() && forall|k: int|
        start <= k < start + len ==> groups[k] == 0
}

/// Whether a run of zeros is the first of the longest.
pub open spec fn longest_run(groups: Seq<u16>, start: int, len: int) -> bool {
    &&& zero_run(groups, start, len)
    &&& forall|s: int, l: int|
        #[trigger] zero_run(groups, s, l) ==> l < len || (l == len && (len == 0 || start <= s))
    &&& len == 0 ==> start == 0
}

/// The text of groups: the first of the longest runs of two or more zeros
/// becomes a gap.
pub open spec fn groups_text(groups: Seq<u16>) -> Seq<char> {
    let (start, len) = choose|start: int, len: int| longest_run(groups, start, len);
    if len > 1 {
        colon_groups(groups.take(start)) + seq![':', ':'] + colon_groups(groups.skip(start + len))
    } else {
        colon_groups(groups)
    }
}

/// Whether an IPv6 address stands for an IPv4 address.
pub open spec fn is_mapped(ip: u128) -> bool {
    ip / 0x1_0000_0000 == 0xffff
}

/// An IPv6 address as text.
pub open spec fn ipv6_text(ip: u128) -> Seq<char> {
    if is_mapped(ip) {
        "::ffff:"@ + ipv4_text((ip % 0x1_0000_0000) as u32)
    } else {
        groups_text(groups_of(ip))
    }
}

/// An address as text.
pub open spec fn ip_text(ip: IpAddr) -> Seq<char> {
    match ip {
        IpAddr::V4(ip) => ipv4_text(ip),
        IpAddr::V6(ip) => ipv6_text(ip),
    }
}

/// Appends a number in hexadecimal.
pub fn push_hex(out: &mut String, n: u64)
    ensures
        final(out)@ == old(out)@ + hex(n as nat),
    decreases n,
{
    let d: u8 = (n % 16) as u8;
    let c = if d < 10 {
        (48u8 + d) as char
    } else {
        (87u8 + d) as char
    };
    if n >= 16 {
        push_hex(out, n / 16);
    }
    out.push(c);
    assert(out@ =~= old(out)@ + hex(n as nat));
}

fn push_groups(out: &mut String, groups: &[u16], start: usize, end: usize)
    requires
        start <= end <= groups.len(),
    ensures
        final(out)@ == old(out)@ + colon_groups(groups@.subrange(start as int, end as int)),
{
    let ghost before = out@;
    let mut i: usize = start;
    assert(before + colon_groups(groups@.subrange(start as int, start as int)) =~= before);
    while i < end
        invariant
            start <= i <= end <= groups.len(),
            out@ == before + colon_groups(groups@.subrange(start as int, i as int)),
        decreases end - i,
    {
        let ghost shorter = groups@.subrange(start as int, i as int);
        let ghost longer = groups@.subrange(start as int, i + 1);
        assert(longer.drop_last() =~= shorter);
        if i > start {
            out.push(':');
        }
        push_hex(out, groups[i] as u64);
        assert(out@ =~= before + colon_groups(longer));
        i += 1;
    }
}

fn find_longest_run(groups: &[u16]) -> (run: (usize, usize))
    ensures
        longest_run(groups@, run.0 as int, run.1 as int),
{
    let mut best_start: usize = 0;
    let mut best_len: usize = 0;
    let mut start: usize = 0;
    let mut len: usize = 0;
    let mut i: usize = 0;
    while i < groups.len()
        invariant
            i <= groups.len(),
            start + len <= i,
            len > 0 ==> start + len == i,
            zero_run(groups@, start as int, len as int),
            len > 0 ==> start == 0 || groups@[start - 1] != 0,
            len == 0 ==> i == 0 || groups@[i - 1] != 0,
            best_start + best_len <= i,
            zero_run(groups@, best_start as int, best_len as int),
            best_len == 0 ==> best_start == 0,
            forall|s: int, l: int|
                #[trigger] zero_run(groups@, s, l) && s + l <= i ==> l < best_len || (l == best_len
                    && (best_len == 0 || best_start <= s)),
        decreases groups.len() - i,
    {
        let ghost old_best_start = best_start;
        let ghost old_best_len = best_len;
        if groups[i] == 0 {
            if len == 0 {
                start = i;
            }
            len += 1;
            if len > best_len {
                best_start = start;
                best_len = len;
            }
            assert forall|s: int, l: int|
                #[trigger] zero_run(groups@, s, l) && s + l <= i + 1 implies l < best_len || (l
                == best_len && (best_len == 0 || best_start <= s)) by {
                if s + l == i + 1 && l > 0 {
                    // A run that ends here cannot begin before the current one.
                    if s < start {
                        assert(groups@[start - 1] == 0);
                    }
                }
            }
        } else {
            start = 0;
            len = 0;
            assert forall|s: int, l: int|
                #[trigger] zero_run(groups@, s, l) && s + l <= i + 1 implies l < best_len || (l
                == best_len && (best_len == 0 || best_start <= s)) by {
                if s + l == i + 1 && l > 0 {
                    assert(groups@[i as int] == 0);
                }
            }
        }
        i += 1;
    }
    (best_start, best_len)
}

proof fn lemma_longest_run_unique(groups: Seq<u16>, s1: int, l1: int, s2: int, l2: int)
    requires
        longest_run(groups, s1, l1),
        longest_run(groups, s2, l2),
    ensures
        s1 == s2,
        l1 == l2,
{
    assert(zero_run(groups, s1, l1));
    assert(zero_run(groups, s2, l2));
}

/// Appends an IPv6 address.
pub fn push_ipv6(out: &mut String, ip: u128)
    ensures
        final(out)@ == old(out)@ + ipv6_text(ip),
{
    if ip / 0x1_0000_0000 == 0xffff {
        let ghost before = out@;
        out.append("::ffff:");
        push_ipv4(out, (ip % 0x1_0000_0000) as u32);
        assert(out@ =~= before + ipv6_text(ip));
        return ;
    }
    let mut groups: Vec<u16> = Vec::new();
    groups.push((ip / 0x1_0000_0000_0000_0000_0000_0000_0000) as u16);
    groups.push((ip / 0x1_0000_0000_0000_0000_0000_0000 % 0x1_0000) as u16);
    groups.push((ip / 0x1_0000_0000_0000_0000_0000 % 0x1_0000) as u16);
    groups.push((ip / 0x1_0000_0000_0000_0000 % 0x1_0000) as u16);
    groups.push((ip / 0x1_0000_0000_0000 % 0x1_0000) as u16);
    groups.push((ip / 0x1_0000_0000 % 0x1_0000) as u16);
    groups.push((ip / 0x1_0000 % 0x1_0000) as u16);
    groups.push((ip % 0x1_0000) as u16);
    assert(groups@ =~= groups_of(ip));
    let (start, len) = find_longest_run(groups.as_slice());
    proof {
        let (s, l) = choose|s: int, l: int| longest_run(groups@, s, l);
        lemma_longest_run_unique(groups@, s, l, start as int, len as int);
    }
    let ghost before = out@;
    if len > 1 {
        push_groups(out, groups.as_slice(), 0, start);
        out.push(':');
        out.push(':');
        push_groups(out, groups.as_slice(), start + len, 8);
        assert(groups@.subrange(0, start as int) =~= groups@.take(start as int));
        assert(groups@.subrange(start + len, 8) =~= groups@.skip(start + len));
        assert(out@ =~= before + groups_text(groups@));
    } else {
        push_groups(out, groups.as_slice(), 0, 8);
        assert(groups@.subrange(0, 8) =~= groups@);
    }
}

/// Appends an address.
pub fn push_ip(out: &mut String, ip: IpAddr)
    ensures
        final(out)@ == old(out)@ + ip_text(ip),
{
    match ip {
        IpAddr::V4(ip) => push_ipv4(out, ip),
        IpAddr::V6(ip) => push_ipv6(out, ip),
    }
}

/// An address as text.
pub fn format_ip(ip: IpAddr) -> (text: String)
    ensures
        text@ == ip_text(ip),
{
    let mut text = String::new();
    push_ip(&mut text, ip);
    assert(Seq::<char>::empty() + ip_text(ip) =~= ip_text(ip));
    text
}

// ---------------------------------------------------------------------------
// Laws
// ---------------------------------------------------------------------------

/// Whether a text has no white space.
pub open spec fn unspaced(s: Seq<char>) -> bool {
    forall|i: int| 0 <= i < s.len() ==> !white_space(#[trigger] s[i])
}

proof fn lemma_decimal_unspaced(n: nat)
    ensures
        unspaced(decimal(n)),
    decreases n,
{
    if n >= 10 {
        lemma_decimal_unspaced(n / 10);
    }
}

proof fn lemma_hex_unspaced(n: nat)
    ensures
        unspaced(hex(n)),
    decreases n,
{
    if n >= 16 {
        lemma_hex_unspaced(n / 16);
    }
}

proof fn lemma_colon_groups_unspaced(groups: Seq<u16>)
    ensures
        unspaced(colon_groups(groups)),
    decreases groups.len(),
{
    if groups.len() == 1 {
        lemma_hex_unspaced(groups[0] as nat);
    } else if groups.len() > 1 {
        lemma_colon_groups_unspaced(groups.drop_last());
        lemma_hex_unspaced(groups.last() as nat);
    }
}

proof fn lemma_ipv4_unspaced(ip: u32)
    ensures
        unspaced(ipv4_text(ip)),
{
    lemma_decimal_unspaced(ipv4_octet(ip, 0));
    lemma_decimal_unspaced(ipv4_octet(ip, 1));
    lemma_decimal_unspaced(ipv4_octet(ip, 2));
    lemma_decimal_unspaced(ipv4_octet(ip, 3));
}

/// The text of an address has no white space in it or around it.
pub proof fn law_address_text_is_trimmed(ip: IpAddr)
    ensures
        unspaced(ip_text(ip)),
        trimmed(ip_text(ip)) == ip_text(ip),
{
    match ip {
        IpAddr::V4(v4) => lemma_ipv4_unspaced(v4),
        IpAddr::V6(v6) => {
            if is_mapped(v6) {
                reveal_strlit("::ffff:");
                lemma_ipv4_unspaced((v6 % 0x1_0000_0000) as u32);
            } else {
                let groups = groups_of(v6);
                let (start, len) = choose|start: int, len: int| longest_run(groups, start, len);
                lemma_colon_groups_unspaced(groups);
                lemma_colon_groups_unspaced(groups.take(start));
                lemma_colon_groups_unspaced(groups.skip(start + len));
            }
        },
    }
}

proof fn lemma_octet(n: nat)
    requires
        n <= 255,
    ensures
        is_octet(decimal(n)),
        digits_value(decimal(n)) == n,
        !decimal(n).contains('.'),
        !decimal(n).contains(':'),
{
    law_numbers_read_back(n);
    let s = decimal(n);
    assert forall|k: int| 0 <= k < s.len() implies #[trigger] s[k] != '.' && s[k] != ':' by {
        assert(is_digit(s[k]));
    }
}

proof fn lemma_dotted(a: nat, b: nat, c: nat, d: nat)
    requires
        a <= 255,
        b <= 255,
        c <= 255,
        d <= 255,
    ensures
        pieces(
            (decimal(a).push('.') + decimal(b)).push('.') + (decimal(c).push('.') + decimal(d)),
            '.',
        ) == seq![decimal(a), decimal(b), decimal(c), decimal(d)],
{
    lemma_octet(a);
    lemma_octet(b);
    lemma_octet(c);
    lemma_octet(d);
    let one = decimal(a);
    let two = one.push('.') + decimal(b);
    let three = two.push('.') + decimal(c);
    law_separators_part_pieces(one, decimal(a), '.');
    law_separators_part_pieces(one, decimal(b), '.');
    law_separators_part_pieces(two, decimal(c), '.');
    law_separators_part_pieces(three, decimal(d), '.');
    assert(two.push('.') + (decimal(c).push('.') + decimal(d)) =~= three.push('.') + decimal(d));
    assert(seq![decimal(a)].push(decimal(b)).push(decimal(c)).push(decimal(d)) =~= seq![
        decimal(a),
        decimal(b),
        decimal(c),
        decimal(d),
    ]);
}

/// Four numbers up to 255 between dots are an IPv4 address, the first being the most
/// significant, and the address is written so.
pub proof fn law_ipv4_is_four_numbers(a: nat, b: nat, c: nat, d: nat)
    requires
        a <= 255,
        b <= 255,
        c <= 255,
        d <= 255,
    ensures
        ({
            let text = decimal(a) + "."@ + decimal(b) + "."@ + decimal(c) + "."@ + decimal(d);
            let ip = (16777216 * a + 65536 * b + 256 * c + d) as u32;
            &&& ip_value(text) == Some(IpAddr::V4(ip))
            &&& ip_text(IpAddr::V4(ip)) == text
        }),
{
    reveal_strlit(".");
    let text = decimal(a) + "."@ + decimal(b) + "."@ + decimal(c) + "."@ + decimal(d);
    let ip = (16777216 * a + 65536 * b + 256 * c + d) as u32;
    lemma_octet(a);
    lemma_octet(b);
    lemma_octet(c);
    lemma_octet(d);
    lemma_dotted(a, b, c, d);
    lemma_octets_of(a, b, c, d);
    assert(text =~= (decimal(a).push('.') + decimal(b)).push('.') + (decimal(c).push('.')
        + decimal(d)));
}

proof fn lemma_octets_of(a: nat, b: nat, c: nat, d: nat)
    requires
        a <= 255,
        b <= 255,
        c <= 255,
        d <= 255,
    ensures
        ({
            let ip = (16777216 * a + 65536 * b + 256 * c + d) as u32;
            &&& ip == 16777216 * a + 65536 * b + 256 * c + d
            &&& ipv4_octet(ip, 0) == a
            &&& ipv4_octet(ip, 1) == b
            &&& ipv4_octet(ip, 2) == c
            &&& ipv4_octet(ip, 3) == d
        }),
{
    let ip = (16777216 * a + 65536 * b + 256 * c + d) as u32;
    assert(ip / 0x100 == 65536 * a + 256 * b + c);
    assert(ip / 0x1_0000 == 256 * a + b);
    assert(ip / 0x100_0000 == a);
}

/// An IPv4 address that is written reads back.
pub proof fn law_ipv4_reads_back(ip: u32)
    ensures
        ipv4_value(ipv4_text(ip)) == Some(ip),
        ip_value(ip_text(IpAddr::V4(ip))) == Some(IpAddr::V4(ip)),
{
    let a = ipv4_octet(ip, 0);
    let b = ipv4_octet(ip, 1);
    let c = ipv4_octet(ip, 2);
    let d = ipv4_octet(ip, 3);
    lemma_octet(a);
    lemma_octet(b);
    lemma_octet(c);
    lemma_octet(d);
    lemma_dotted(a, b, c, d);
}

/// A socket address is an address and a port with a colon between them; the port is what
/// stands behind the last colon.
pub proof fn law_socket_is_address_and_port(ip: u32, port: u16)
    ensures
        socket_value(ip_text(IpAddr::V4(ip)) + ":"@ + decimal(port as nat)) == Some(
            (IpAddr::V4(ip), port),
        ),
        socket_value(ip_text(IpAddr::V4(ip))) is None,
        socket_value(decimal(port as nat)) is None,
{
    reveal_strlit(":");
    let head = ipv4_text(ip);
    let tail = decimal(port as nat);
    let text = head + ":"@ + tail;
    law_ipv4_reads_back(ip);
    law_numbers_read_back(port as nat);
    law_bounded_numbers_are_taken(port as nat, u16::MAX as u64);
    law_ipv4_is_digits_and_dots(ip);
    law_places_are_found(text, ':');
    law_places_are_found(head, ':');
    law_places_are_found(tail, ':');
    let at = head.len() as int;
    assert(text[at] == ':');
    assert forall|k: int| at < k < text.len() implies #[trigger] text[k] != ':' by {
        assert(text[k] == tail[k - at - 1]);
        assert(is_digit(tail[k - at - 1]));
    }
    assert(last_at(text, ':') == Some(at));
    assert(text.take(at) =~= head);
    assert(text.skip(at + 1) =~= tail);
    assert forall|k: int| 0 <= k < tail.len() implies #[trigger] tail[k] != ':' by {
        assert(is_digit(tail[k]));
    }
}

/// The text of an IPv4 address is made of digits and dots, so it can be parted from what
/// follows it by a colon or a slash.
pub proof fn law_ipv4_is_digits_and_dots(ip: u32)
    ensures
        forall|k: int|
            0 <= k < ipv4_text(ip).len() ==> #[trigger] ipv4_text(ip)[k] == '.' || is_digit(
                ipv4_text(ip)[k],
            ),
{
    let a = decimal(ipv4_octet(ip, 0));
    let b = decimal(ipv4_octet(ip, 1));
    let c = decimal(ipv4_octet(ip, 2));
    let d = decimal(ipv4_octet(ip, 3));
    law_numbers_read_back(ipv4_octet(ip, 0));
    law_numbers_read_back(ipv4_octet(ip, 1));
    law_numbers_read_back(ipv4_octet(ip, 2));
    law_numbers_read_back(ipv4_octet(ip, 3));
    let s = ipv4_text(ip);
    assert forall|k: int| 0 <= k < s.len() implies #[trigger] s[k] == '.' || is_digit(s[k]) by {
        let two = a.len() + 1 + b.len();
        let three = two + 1 + c.len();
        if k < a.len() {
            assert(s[k] == a[k]);
        } else if k == a.len() {
            assert(s[k] == '.');
        } else if k < two {
            assert(s[k] == b[k - a.len() - 1]);
        } else if k == two {
            assert(s[k] == '.');
        } else if k < three {
            assert(s[k] == c[k - two - 1]);
        } else if k == three {
            assert(s[k] == '.');
        } else {
            assert(s[k] == d[k - three - 1]);
        }
    }
}

/// A hexadecimal digit counts the same in both cases.
pub proof fn law_hex_digits_count(c: char)
    ensures
        '0' <= c <= '9' ==> hex_digit(c) == Some((c as nat - 48) as nat),
        hex_digit('a') == Some(10nat) && hex_digit('A') == Some(10nat),
        hex_digit('b') == Some(11nat) && hex_digit('B') == Some(11nat),
        hex_digit('c') == Some(12nat) && hex_digit('C') == Some(12nat),
        hex_digit('d') == Some(13nat) && hex_digit('D') == Some(13nat),
        hex_digit('e') == Some(14nat) && hex_digit('E') == Some(14nat),
        hex_digit('f') == Some(15nat) && hex_digit('F') == Some(15nat),
        hex_digit(':') is None && hex_digit('g') is None && hex_digit('G') is None,
{
}

/// A number in hexadecimal is made of digits and reads back; a group takes up to four.
pub proof fn law_hex_reads_back(n: nat)
    ensures
        hex(n).len() > 0,
        hex_value(hex(n)) == Some(n),
        forall|k: int| 0 <= k < hex(n).len() ==> hex_digit(#[trigger] hex(n)[k]) is Some,
        n < 16 ==> hex(n).len() == 1,
        n < 256 ==> hex(n).len() <= 2,
        n < 4096 ==> hex(n).len() <= 3,
        n < 65536 ==> hex(n).len() <= 4 && hex_group(hex(n)) == Some(n as u16),
    decreases n,
{
    let s = hex(n);
    if n < 16 {
        assert(s.drop_last() =~= Seq::<char>::empty());
        reveal_with_fuel(hex_value, 2);
        assert(hex_digit(s[0]) == Some(n));
    } else {
        law_hex_reads_back(n / 16);
        assert(s.drop_last() =~= hex(n / 16));
        assert(hex_digit(s.last()) == Some(n % 16));
        assert forall|k: int| 0 <= k < s.len() implies hex_digit(#[trigger] s[k]) is Some by {
            if k < s.len() - 1 {
                assert(s[k] == hex(n / 16)[k]);
            }
        }
    }
}

/// Groups in hexadecimal.
spec fn hex_parts(groups: Seq<u16>) -> Seq<Seq<char>> {
    groups.map_values(|group: u16| hex(group as nat))
}

proof fn lemma_colon_groups(groups: Seq<u16>)
    requires
        groups.len() > 0,
    ensures
        ({
            let s = colon_groups(groups);
            &&& s.len() > 0
            &&& s[0] != ':'
            &&& s.last() != ':'
            &&& forall|k: int| 0 <= k < s.len() - 1 ==> #[trigger] s[k] != ':' || s[k + 1] != ':'
            &&& pieces(s, ':') == hex_parts(groups)
        }),
    decreases groups.len(),
{
    let s = colon_groups(groups);
    let last = hex(groups.last() as nat);
    law_hex_reads_back(groups.last() as nat);
    assert(!last.contains(':')) by {
        assert forall|k: int| 0 <= k < last.len() implies #[trigger] last[k] != ':' by {
            assert(hex_digit(last[k]) is Some);
        }
    }
    assert(forall|k: int| 0 <= k < last.len() ==> #[trigger] last[k] != ':');
    if groups.len() == 1 {
        assert(s == last);
        law_separators_part_pieces(Seq::empty(), last, ':');
        assert(hex_parts(groups) =~= seq![last]);
    } else {
        let front = groups.drop_last();
        let head = colon_groups(front);
        lemma_colon_groups(front);
        law_separators_part_pieces(head, last, ':');
        assert(hex_parts(groups) =~= hex_parts(front).push(last));
        assert(s[0] == head[0]);
        assert(s.last() == last.last());
        assert forall|k: int| 0 <= k < s.len() - 1 implies #[trigger] s[k] != ':' || s[k + 1]
            != ':' by {
            if k + 1 < head.len() {
                assert(s[k] == head[k] && s[k + 1] == head[k + 1]);
            } else if k + 1 == head.len() {
                assert(s[k] == head.last());
            } else {
                assert(s[k + 1] == last[k - head.len()]);
            }
        }
    }
}

proof fn lemma_hex_groups(groups: Seq<u16>)
    ensures
        hex_groups(hex_parts(groups)) == Some(groups),
    decreases groups.len(),
{
    if groups.len() > 0 {
        let front = groups.drop_last();
        lemma_hex_groups(front);
        law_hex_reads_back(groups.last() as nat);
        assert(hex_parts(groups).drop_last() =~= hex_parts(front));
        assert(hex_parts(groups).last() == hex(groups.last() as nat));
        assert(front.push(groups.last()) =~= groups);
    } else {
        assert(hex_parts(groups) =~= Seq::<Seq<char>>::empty());
        assert(groups =~= Seq::<u16>::empty());
    }
}

proof fn lemma_ends_read_back(groups: Seq<u16>)
    ensures
        head_groups(colon_groups(groups)) == Some(groups),
        tail_groups(colon_groups(groups)) == Some(groups),
{
    if groups.len() == 0 {
        assert(groups =~= Seq::<u16>::empty());
    } else {
        let front = groups.drop_last();
        lemma_colon_groups(groups);
        lemma_hex_groups(groups);
        lemma_hex_groups(front);
        law_hex_reads_back(groups.last() as nat);
        assert(hex_parts(groups).drop_last() =~= hex_parts(front));
        assert(hex_parts(groups).last() == hex(groups.last() as nat));
        assert(front.push(groups.last()) =~= groups);
    }
}

proof fn lemma_colons_occur(s: Seq<char>, at: int)
    requires
        occurs_at(s, seq![':', ':'], at),
    ensures
        0 <= at < s.len() - 1,
        s[at] == ':',
        s[at + 1] == ':',
{
    let needle = seq![':', ':'];
    let rest = s.skip(at);
    assert(rest.take(2)[0] == needle[0]);
    assert(rest.take(2)[1] == needle[1]);
}

/// Eight groups in hexadecimal between colons are an IPv6 address.
pub proof fn law_ipv6_is_eight_groups(groups: Seq<u16>)
    requires
        groups.len() == 8,
    ensures
        ipv6_groups(colon_groups(groups)) == Some(groups),
{
    let s = colon_groups(groups);
    lemma_colon_groups(groups);
    lemma_ends_read_back(groups);
    assert forall|at: int| !gap_at(s, at) by {
        if occurs_at(s, seq![':', ':'], at) {
            lemma_colons_occur(s, at);
        }
    }
}

/// Two colons in a row stand for the groups of zero that are missing to eight, at least one.
pub proof fn law_ipv6_gap_is_zeros(head: Seq<u16>, tail: Seq<u16>)
    requires
        head.len() + tail.len() <= 7,
    ensures
        ipv6_groups(colon_groups(head) + "::"@ + colon_groups(tail)) == Some(
            head + Seq::new((8 - head.len() - tail.len()) as nat, |i: int| 0u16) + tail,
        ),
{
    reveal_strlit("::");
    let h = colon_groups(head);
    let t = colon_groups(tail);
    let s = h + "::"@ + t;
    let at = h.len() as int;
    assert("::"@ =~= seq![':', ':']);
    assert(s.skip(at).take(2) =~= seq![':', ':']);
    assert(occurs_at(s, seq![':', ':'], at));
    if head.len() > 0 {
        lemma_colon_groups(head);
    }
    assert forall|j: int| 0 <= j < at implies !occurs_at(s, seq![':', ':'], j) by {
        if occurs_at(s, seq![':', ':'], j) {
            lemma_colons_occur(s, j);
            assert(s[j] == h[j]);
            if j + 1 < at {
                assert(s[j + 1] == h[j + 1]);
            }
        }
    }
    assert(gap_at(s, at));
    let found = choose|at: int| gap_at(s, at);
    assert(found == at);
    assert(s.take(at) =~= h);
    assert(s.skip(at + 2) =~= t);
    lemma_ends_read_back(head);
    lemma_ends_read_back(tail);
}

/// The groups of an address that is written read back: the first of the longest runs of two
/// or more zeros is left out, and is filled in again.
pub proof fn law_ipv6_groups_read_back(groups: Seq<u16>, start: int, len: int)
    requires
        groups.len() == 8,
        longest_run(groups, start, len),
    ensures
        ipv6_groups(groups_text(groups)) == Some(groups),
{
    let (s, l) = choose|start: int, len: int| longest_run(groups, start, len);
    lemma_longest_run_unique(groups, s, l, start, len);
    if len > 1 {
        let head = groups.take(start);
        let tail = groups.skip(start + len);
        reveal_strlit("::");
        assert("::"@ =~= seq![':', ':']);
        law_ipv6_gap_is_zeros(head, tail);
        assert(head + Seq::new((8 - head.len() - tail.len()) as nat, |i: int| 0u16) + tail
            =~= groups);
    } else {
        law_ipv6_is_eight_groups(groups);
    }
}

/// An IPv6 address is made of its groups, each counting 65536 times as much as the one behind
/// it.
pub proof fn law_groups_count(groups: Seq<u16>, group: u16)
    ensures
        groups_value(Seq::empty()) == 0,
        groups_value(groups.push(group)) == 65536 * groups_value(groups) + group,
{
    assert(groups.push(group).drop_last() =~= groups);
}

proof fn lemma_groups_of(ip: u128)
    ensures
        groups_value(groups_of(ip)) == ip,
{
    let g = groups_of(ip);
    let a = ip as int / 0x1_0000_0000_0000_0000_0000_0000_0000;
    let b = ip as int / 0x1_0000_0000_0000_0000_0000_0000;
    let c = ip as int / 0x1_0000_0000_0000_0000_0000;
    let d = ip as int / 0x1_0000_0000_0000_0000;
    let e = ip as int / 0x1_0000_0000_0000;
    let f = ip as int / 0x1_0000_0000;
    let h = ip as int / 0x1_0000;
    assert(b / 0x1_0000 == a);
    assert(c / 0x1_0000 == b);
    assert(d / 0x1_0000 == c);
    assert(e / 0x1_0000 == d);
    assert(f / 0x1_0000 == e);
    assert(h / 0x1_0000 == f);
    lemma_take_value(g, 0);
    lemma_take_value(g, 1);
    lemma_take_value(g, 2);
    lemma_take_value(g, 3);
    lemma_take_value(g, 4);
    lemma_take_value(g, 5);
    lemma_take_value(g, 6);
    lemma_take_value(g, 7);
    assert(g.take(0) =~= Seq::<u16>::empty());
    assert(groups_value(g.take(1)) == a);
    assert(groups_value(g.take(2)) == b);
    assert(groups_value(g.take(3)) == c);
    assert(groups_value(g.take(4)) == d);
    assert(groups_value(g.take(5)) == e);
    assert(groups_value(g.take(6)) == f);
    assert(groups_value(g.take(7)) == h);
    assert(g.take(8) =~= g);
}

proof fn lemma_take_value(groups: Seq<u16>, i: int)
    requires
        0 <= i < groups.len(),
    ensures
        groups_value(groups.take(i + 1)) == 65536 * groups_value(groups.take(i)) + groups[i],
{
    assert(groups.take(i + 1).drop_last() =~= groups.take(i));
}

proof fn lemma_colon_groups_undotted(groups: Seq<u16>)
    ensures
        !colon_groups(groups).contains('.'),
    decreases groups.len(),
{
    let s = colon_groups(groups);
    if groups.len() == 1 {
        law_hex_reads_back(groups[0] as nat);
        assert forall|k: int| 0 <= k < s.len() implies #[trigger] s[k] != '.' by {
            assert(hex_digit(hex(groups[0] as nat)[k]) is Some);
        }
    } else if groups.len() > 1 {
        let head = colon_groups(groups.drop_last());
        let last = hex(groups.last() as nat);
        lemma_colon_groups_undotted(groups.drop_last());
        law_hex_reads_back(groups.last() as nat);
        assert forall|k: int| 0 <= k < s.len() implies #[trigger] s[k] != '.' by {
            if k < head.len() {
                assert(s[k] == head[k]);
            } else if k > head.len() {
                assert(s[k] == last[k - head.len() - 1]);
                assert(hex_digit(last[k - head.len() - 1]) is Some);
            }
        }
    }
}

/// An IPv6 address that does not stand for an IPv4 address reads back as it was written.
pub proof fn law_ipv6_reads_back(ip: u128, start: int, len: int)
    requires
        !is_mapped(ip),
        longest_run(groups_of(ip), start, len),
    ensures
        ip_value(ip_text(IpAddr::V6(ip))) == Some(IpAddr::V6(ip)),
{
    let groups = groups_of(ip);
    let text = groups_text(groups);
    law_ipv6_groups_read_back(groups, start, len);
    lemma_groups_of(ip);
    let (s, l) = choose|start: int, len: int| longest_run(groups, start, len);
    lemma_longest_run_unique(groups, s, l, start, len);
    lemma_colon_groups_undotted(groups);
    lemma_colon_groups_undotted(groups.take(start));
    lemma_colon_groups_undotted(groups.skip(start + len));
    assert(!text.contains('.')) by {
        if len > 1 {
            let h = colon_groups(groups.take(start));
            let t = colon_groups(groups.skip(start + len));
            assert forall|k: int| 0 <= k < text.len() implies #[trigger] text[k] != '.' by {
                if k < h.len() {
                    assert(text[k] == h[k]);
                } else if k >= h.len() + 2 {
                    assert(text[k] == t[k - h.len() - 2]);
                }
            }
        }
    }
    law_separators_part_pieces(Seq::empty(), text, '.');
}

} // verus!
