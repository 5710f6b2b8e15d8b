//! Who may talk to the API and read the metrics.
use crate::config::MetricsConfig;
use crate::net::{
    ip_text, ip_value, ipv4_octet, law_ipv4_is_four_numbers, parse_ip, push_ip, IpAddr,
};
use crate::text::{
    bounded_value, chars_of, clone_texts, copy_range, decimal, find_first, first_at, is_digit,
    law_bounded_numbers_are_taken, law_numbers_read_back, law_places_are_found, opt_text,
    parse_bounded, push_decimal, strings,
};
use vstd::prelude::*;

verus! {

/// Why a network is none.
#[derive(Clone, Copy, Debug, PartialEq, Eq, Structural)]
pub enum CidrError {
    NoPrefix,
    BadAddress,
    BadPrefix,
    PrefixRange,
}

/// Why there are no networks to go by.
#[derive(Clone, Copy, Debug, PartialEq, Eq, Structural)]
pub enum AccessFault {
    /// The underlay device has no network of the underlay address.
    NoDeviceNetwork,
}

/// Two to the power of `n`.
pub open spec fn two_to(n: nat) -> nat
    decreases n,
{
    if n == 0 {
        1
    } else {
        2 * two_to((n - 1) as nat)
    }
}

/// Whether the first `prefix` of `bits` bits of two numbers are the same.
pub open spec fn same_prefix(a: nat, b: nat, bits: nat, prefix: nat) -> bool {
    a / two_to((bits - prefix) as nat) == b / two_to((bits - prefix) as nat)
}

/// The address and prefix of a network.
pub open spec fn cidr_parts(cidr: Seq<char>) -> Result<(IpAddr, u8), CidrError> {
    match first_at(cidr, '/') {
        None => Err(CidrError::NoPrefix),
        Some(at) => match ip_value(cidr.take(at)) {
            None => Err(CidrError::BadAddress),
            Some(base) => match bounded_value(cidr.skip(at + 1), u8::MAX as u64) {
                None => Err(CidrError::BadPrefix),
                Some(prefix) => Ok((base, prefix as u8)),
            },
        },
    }
}

/// Whether an address is in a network; one of another family is not.
pub open spec fn in_network(ip: IpAddr, cidr: Seq<char>) -> Result<bool, CidrError> {
    match cidr_parts(cidr) {
        Err(error) => Err(error),
        Ok((base, prefix)) => match (ip, base) {
            (IpAddr::V4(ip), IpAddr::V4(base)) => if prefix > 32 {
                Err(CidrError::PrefixRange)
            } else {
                Ok(same_prefix(ip as nat, base as nat, 32, prefix as nat))
            },
            (IpAddr::V6(ip), IpAddr::V6(base)) => if prefix > 128 {
                Err(CidrError::PrefixRange)
            } else {
                Ok(same_prefix(ip as nat, base as nat, 128, prefix as nat))
            },
            _ => Ok(false),
        },
    }
}

pub proof fn lemma_two_to_grows(a: nat, b: nat)
    requires
        a <= b,
    ensures
        two_to(a) <= two_to(b),
    decreases b,
{
    if a < b {
        lemma_two_to_grows(a, (b - 1) as nat);
    }
}

pub proof fn lemma_two_to_wide()
    ensures
        two_to(32) == 0x1_0000_0000,
        two_to(127) == 0x8000_0000_0000_0000_0000_0000_0000_0000,
        two_to(128) == 0x1_0000_0000_0000_0000_0000_0000_0000_0000,
{
    reveal_with_fuel(two_to, 33);
    assert(two_to(32) == 0x1_0000_0000);
    assert(two_to(64) == 0x1_0000_0000_0000_0000);
    assert(two_to(96) == 0x1_0000_0000_0000_0000_0000_0000);
    assert(two_to(127) == 0x8000_0000_0000_0000_0000_0000_0000_0000);
}

fn power(n: u8) -> (p: u128)
    requires
        n <= 127,
    ensures
        p == two_to(n as nat),
        p > 0,
{
    let mut p: u128 = 1;
    let mut i: u8 = 0;
    while i < n
        invariant
            i <= n <= 127,
            p == two_to(i as nat),
            p > 0,
        decreases n - i,
    {
        proof {
            lemma_two_to_grows((i + 1) as nat, 127);
            lemma_two_to_wide();
        }
        p = p * 2;
        i += 1;
    }
    p
}

fn shares_prefix(a: u128, b: u128, bits: u8, prefix: u8) -> (same: bool)
    requires
        prefix <= bits <= 128,
        a < two_to(bits as nat),
        b < two_to(bits as nat),
    ensures
        same == same_prefix(a as nat, b as nat, bits as nat, prefix as nat),
{
    if prefix == 0 {
        proof {
            lemma_below_is_zero(a as nat, two_to(bits as nat));
            lemma_below_is_zero(b as nat, two_to(bits as nat));
        }
        return true;
    }
    let unit: u128 = power(bits - prefix);
    a / unit == b / unit
}

fn split_cidr(cidr: &str) -> (parts: Result<(IpAddr, u8), CidrError>)
    ensures
        parts == cidr_parts(cidr@),
{
    let chars = chars_of(cidr);
    let at = match find_first(chars.as_slice(), '/') {
        None => {
            return Err(CidrError::NoPrefix);
        },
        Some(at) => at,
    };
    let head = copy_range(chars.as_slice(), 0, at);
    assert(head@ =~= chars@.take(at as int));
    let base = match parse_ip(head.as_slice()) {
        None => {
            return Err(CidrError::BadAddress);
        },
        Some(base) => base,
    };
    let tail = copy_range(chars.as_slice(), at + 1, chars.len());
    assert(tail@ =~= chars@.skip(at + 1));
    match parse_bounded(tail.as_slice(), 255) {
        None => Err(CidrError::BadPrefix),
        Some(prefix) => Ok((base, prefix as u8)),
    }
}

/// Whether an address is in a network; one of another family is not.
pub fn ip_in_cidr(ip: IpAddr, cidr: &str) -> (inside: Result<bool, CidrError>)
    ensures
        inside == in_network(ip, cidr@),
{
    let (base, prefix) = match split_cidr(cidr) {
        Err(error) => {
            return Err(error);
        },
        Ok(parts) => parts,
    };
    proof {
        lemma_two_to_wide();
    }
    match (ip, base) {
        (IpAddr::V4(ip), IpAddr::V4(base)) => {
            if prefix > 32 {
                return Err(CidrError::PrefixRange);
            }
            Ok(shares_prefix(ip as u128, base as u128, 32, prefix))
        },
        (IpAddr::V6(ip), IpAddr::V6(base)) => {
            if prefix > 128 {
                return Err(CidrError::PrefixRange);
            }
            Ok(shares_prefix(ip, base, 128, prefix))
        },
        _ => Ok(false),
    }
}

/// Whether an address is in one of some networks. A bad network ahead of the first
/// that matches is an error.
pub open spec fn allowed(ip: IpAddr, cidrs: Seq<Seq<char>>) -> Result<bool, CidrError>
    decreases cidrs.len(),
{
    if cidrs.len() == 0 {
        Ok(false)
    } else {
        match in_network(ip, cidrs[0]) {
            Err(error) => Err(error),
            Ok(true) => Ok(true),
            Ok(false) => allowed(ip, cidrs.skip(1)),
        }
    }
}

/// Whether an address is in one of some networks.
pub fn source_allowed(ip: IpAddr, cidrs: &[String]) -> (inside: Result<bool, CidrError>)
    ensures
        inside == allowed(ip, strings(cidrs@)),
{
    let ghost views = strings(cidrs@);
    let mut i: usize = 0;
    assert(views.skip(0) =~= views);
    while i < cidrs.len()
        invariant
            i <= cidrs.len(),
            views == strings(cidrs@),
            allowed(ip, views) == allowed(ip, views.skip(i as int)),
        decreases cidrs.len() - i,
    {
        assert(views.skip(i as int)[0] == cidrs@[i as int]@);
        assert(views.skip(i as int).skip(1) =~= views.skip(i + 1));
        match ip_in_cidr(ip, cidrs[i].as_str()) {
            Err(error) => {
                return Err(error);
            },
            Ok(inside) => {
                if inside {
                    return Ok(true);
                }
            },
        }
        i += 1;
    }
    Ok(false)
}

// ---------------------------------------------------------------------------
// Networks that are trusted
// ---------------------------------------------------------------------------

/// The network of the underlay device, where the device has one.
pub fn underlay_device_cidr(device_cidr: &Option<String>) -> (cidr: Result<String, AccessFault>)
    ensures
        cidr == (match *device_cidr {
            Some(cidr) => Ok::<String, AccessFault>(cidr),
            None => Err::<String, AccessFault>(AccessFault::NoDeviceNetwork),
        }),
{
    match device_cidr {
        Some(cidr) => Ok(cidr.clone()),
        None => Err(AccessFault::NoDeviceNetwork),
    }
}

/// A network to go by where the device has none: the /24 of an IPv4 address, the
/// /64 of an IPv6 address.
pub open spec fn fallback_cidr(ip: IpAddr) -> Option<Seq<char>> {
    match ip {
        IpAddr::V4(v4) => if v4 == 0 {
            None
        } else {
            Some(
                decimal(ipv4_octet(v4, 0)) + "."@ + decimal(ipv4_octet(v4, 1)) + "."@ + decimal(
                    ipv4_octet(v4, 2),
                ) + ".0/24"@,
            )
        },
        IpAddr::V6(v6) => if v6 == 0 {
            None
        } else {
            Some(ip_text(ip) + "/64"@)
        },
    }
}

fn fallback_underlay_cidr(ip: IpAddr) -> (cidr: Option<String>)
    ensures
        match cidr {
            Some(cidr) => fallback_cidr(ip) == Some(cidr@),
            None => fallback_cidr(ip) is None,
        },
{
    match ip {
        IpAddr::V4(v4) => {
            if v4 == 0 {
                return None;
            }
            let mut out = String::new();
            push_decimal(&mut out, (v4 / 0x100_0000) as u64);
            out.append(".");
            push_decimal(&mut out, (v4 / 0x1_0000 % 0x100) as u64);
            out.append(".");
            push_decimal(&mut out, (v4 / 0x100 % 0x100) as u64);
            out.append(".0/24");
            assert(out@ =~= decimal(ipv4_octet(v4, 0)) + "."@ + decimal(ipv4_octet(v4, 1)) + "."@
                + decimal(ipv4_octet(v4, 2)) + ".0/24"@);
            Some(out)
        },
        IpAddr::V6(v6) => {
            if v6 == 0 {
                return None;
            }
            let mut out = String::new();
            push_ip(&mut out, ip);
            out.append("/64");
            assert(out@ =~= ip_text(ip) + "/64"@);
            Some(out)
        },
    }
}

/// The networks that may talk to the API: those that are set, else that of the
/// underlay device, else one made of the underlay address.
pub open spec fn api_networks(
    configured: Seq<Seq<char>>,
    device_cidr: Option<Seq<char>>,
    underlay_ip: IpAddr,
) -> Seq<Seq<char>> {
    if configured.len() > 0 {
        configured
    } else {
        match (device_cidr, fallback_cidr(underlay_ip)) {
            (Some(cidr), _) => seq![cidr],
            (None, Some(cidr)) => seq![cidr],
            (None, None) => Seq::empty(),
        }
    }
}

/// The networks that may talk to the API.
pub fn api_trusted_source_cidrs(
    configured: &[String],
    device_cidr: &Option<String>,
    underlay_ip: IpAddr,
) -> (cidrs: Vec<String>)
    ensures
        strings(cidrs@) == api_networks(
            strings(configured@),
            opt_text(*device_cidr),
            underlay_ip,
        ),
{
    assert(strings(configured@).len() == configured@.len());
    if configured.len() > 0 {
        return clone_texts(configured);
    }
    let mut cidrs: Vec<String> = Vec::new();
    let own = match underlay_device_cidr(device_cidr) {
        Ok(cidr) => Some(cidr),
        Err(_) => fallback_underlay_cidr(underlay_ip),
    };
    match own {
        Some(cidr) => {
            let ghost view = cidr@;
            cidrs.push(cidr);
            assert(strings(cidrs@) =~= seq![view]);
        },
        None => {
            assert(strings(cidrs@) =~= Seq::<Seq<char>>::empty());
        },
    }
    cidrs
}

/// The networks that may read the metrics: none without metrics, those that are
/// set, else that of the underlay device.
pub open spec fn metrics_networks(
    metrics: Option<MetricsConfig>,
    device_cidr: Option<Seq<char>>,
) -> Result<Seq<Seq<char>>, AccessFault> {
    match metrics {
        None => Ok(Seq::empty()),
        Some(metrics) => if metrics.trusted_source_cidrs@.len() > 0 {
            Ok(strings(metrics.trusted_source_cidrs@))
        } else {
            match device_cidr {
                Some(cidr) => Ok(seq![cidr]),
                None => Err(AccessFault::NoDeviceNetwork),
            }
        },
    }
}

/// The networks that may read the metrics.
pub fn metrics_trusted_source_cidrs(
    metrics: &Option<MetricsConfig>,
    device_cidr: &Option<String>,
) -> (cidrs: Result<Vec<String>, AccessFault>)
    ensures
        match (cidrs, metrics_networks(*metrics, opt_text(*device_cidr))) {
            (Ok(cidrs), Ok(list)) => strings(cidrs@) == list,
            (Err(fault), Err(error)) => fault == error,
            _ => false,
        },
{
    match metrics {
        None => {
            let none: Vec<String> = Vec::new();
            assert(strings(none@) =~= Seq::<Seq<char>>::empty());
            Ok(none)
        },
        Some(metrics) => {
            if metrics.trusted_source_cidrs.len() > 0 {
                return Ok(clone_texts(metrics.trusted_source_cidrs.as_slice()));
            }
            match underlay_device_cidr(device_cidr) {
                Ok(cidr) => {
                    let ghost view = cidr@;
                    let mut cidrs: Vec<String> = Vec::new();
                    cidrs.push(cidr);
                    assert(strings(cidrs@) =~= seq![view]);
                    Ok(cidrs)
                },
                Err(fault) => Err(fault),
            }
        },
    }
}

// ---------------------------------------------------------------------------
// Laws
// ---------------------------------------------------------------------------

/// A network with prefix 0 holds every address of its family; one with the full
/// prefix holds one address.
pub proof fn law_prefix_extremes(a: u32, b: u32, c: u128, d: u128)
    ensures
        same_prefix(a as nat, b as nat, 32, 0),
        same_prefix(a as nat, b as nat, 32, 32) <==> a == b,
        same_prefix(c as nat, d as nat, 128, 0),
        same_prefix(c as nat, d as nat, 128, 128) <==> c == d,
{
    lemma_two_to_wide();
    assert(two_to(0) == 1);
    lemma_below_is_zero(a as nat, two_to(32));
    lemma_below_is_zero(b as nat, two_to(32));
    lemma_below_is_zero(c as nat, two_to(128));
    lemma_below_is_zero(d as nat, two_to(128));
    lemma_over_one(a as nat);
    lemma_over_one(b as nat);
    lemma_over_one(c as nat);
    lemma_over_one(d as nat);
}

proof fn lemma_below_is_zero(n: nat, whole: nat)
    requires
        n < whole,
    ensures
        n / whole == 0,
{
    assert(n / whole == 0) by (nonlinear_arith)
        requires
            n < whole,
    ;
}

proof fn lemma_over_one(n: nat)
    ensures
        n / two_to(0) == n,
{
    assert(two_to(0) == 1);
    assert(n / 1 == n);
}

/// A longer prefix holds no more addresses.
pub proof fn law_longer_prefix_is_narrower(a: nat, b: nat, bits: nat, short: nat, long: nat)
    requires
        short <= long <= bits,
        same_prefix(a, b, bits, long),
    ensures
        same_prefix(a, b, bits, short),
{
    let fine = two_to((bits - long) as nat);
    let coarse = two_to((bits - short) as nat);
    let ratio = two_to((long - short) as nat);
    lemma_two_to_sum((bits - long) as nat, (long - short) as nat);
    lemma_two_to_positive((bits - long) as nat);
    lemma_two_to_positive((long - short) as nat);
    vstd::arithmetic::div_mod::lemma_div_denominator(a as int, fine as int, ratio as int);
    vstd::arithmetic::div_mod::lemma_div_denominator(b as int, fine as int, ratio as int);
}

proof fn lemma_two_to_positive(n: nat)
    ensures
        two_to(n) > 0,
    decreases n,
{
    if n > 0 {
        lemma_two_to_positive((n - 1) as nat);
    }
}

proof fn lemma_two_to_sum(a: nat, b: nat)
    ensures
        two_to(a + b) == two_to(a) * two_to(b),
    decreases b,
{
    if b > 0 {
        lemma_two_to_sum(a, (b - 1) as nat);
        let x = two_to(a) as int;
        let y = two_to((b - 1) as nat) as int;
        assert(2 * (x * y) == x * (2 * y)) by (nonlinear_arith);
        assert(two_to(b) == 2 * y);
        assert(two_to(a + b) == 2 * two_to((a + b - 1) as nat));
    } else {
        assert(two_to(a) * 1 == two_to(a));
    }
}

/// An address of one family is in no network of the other.
pub proof fn law_families_do_not_mix(v4: u32, v6: u128, cidr: Seq<char>)
    ensures
        cidr_parts(cidr) matches Ok((IpAddr::V6(_), _)) ==> in_network(IpAddr::V4(v4), cidr)
            == Ok::<bool, CidrError>(false),
        cidr_parts(cidr) matches Ok((IpAddr::V4(_), _)) ==> in_network(IpAddr::V6(v6), cidr)
            == Ok::<bool, CidrError>(false),
{
}

/// A network is an address and a prefix with a slash between them. It holds the addresses of
/// its family whose first bits, as many as the prefix says, are those of the address.
pub proof fn law_network_is_base_and_prefix(
    base: IpAddr,
    text: Seq<char>,
    prefix: u8,
    v4: u32,
    ip: u32,
)
    requires
        ip_value(text) == Some(base),
        !text.contains('/'),
    ensures
        ({
            let cidr = text + "/"@ + decimal(prefix as nat);
            let inside = in_network(IpAddr::V4(ip), cidr);
            &&& cidr_parts(cidr) == Ok::<(IpAddr, u8), CidrError>((base, prefix))
            &&& cidr_parts(text) == Err::<(IpAddr, u8), CidrError>(CidrError::NoPrefix)
            &&& base == IpAddr::V4(v4) && prefix == 32 ==> inside == Ok::<bool, CidrError>(
                ip == v4,
            )
            &&& base == IpAddr::V4(v4) && prefix == 24 ==> inside == Ok::<bool, CidrError>(
                ip / 256 == v4 / 256,
            )
            &&& base == IpAddr::V4(v4) && prefix == 16 ==> inside == Ok::<bool, CidrError>(
                ip / 65536 == v4 / 65536,
            )
            &&& base == IpAddr::V4(v4) && prefix == 8 ==> inside == Ok::<bool, CidrError>(
                ip / 16777216 == v4 / 16777216,
            )
            &&& base == IpAddr::V4(v4) && prefix > 32 ==> inside == Err::<bool, CidrError>(
                CidrError::PrefixRange,
            )
        }),
{
    reveal_strlit("/");
    let tail = decimal(prefix as nat);
    let cidr = text + "/"@ + tail;
    let at = text.len() as int;
    law_places_are_found(cidr, '/');
    law_places_are_found(text, '/');
    law_bounded_numbers_are_taken(prefix as nat, u8::MAX as u64);
    assert(cidr[at] == '/');
    assert forall|k: int| 0 <= k < at implies #[trigger] cidr[k] != '/' by {
        assert(cidr[k] == text[k]);
    }
    assert(first_at(cidr, '/') == Some(at));
    assert(cidr.take(at) =~= text);
    assert(cidr.skip(at + 1) =~= tail);
    lemma_over_one(ip as nat);
    lemma_over_one(v4 as nat);
    assert(two_to(8) == 256 && two_to(16) == 65536 && two_to(24) == 16777216) by {
        reveal_with_fuel(two_to, 25);
    }
}

/// An address with a bad network is refused: one without a slash, without an address before
/// it, or without a number behind it.
pub proof fn law_bad_networks_are_refused(ip: IpAddr, head: Seq<char>, tail: Seq<char>)
    requires
        !head.contains('/'),
    ensures
        in_network(ip, head) == Err::<bool, CidrError>(CidrError::NoPrefix),
        ip_value(head) is None ==> in_network(ip, head + "/"@ + tail) == Err::<bool, CidrError>(
            CidrError::BadAddress,
        ),
        ip_value(head) is Some && bounded_value(tail, 255) is None ==> in_network(
            ip,
            head + "/"@ + tail,
        ) == Err::<bool, CidrError>(CidrError::BadPrefix),
{
    reveal_strlit("/");
    let cidr = head + "/"@ + tail;
    let at = head.len() as int;
    law_places_are_found(cidr, '/');
    law_places_are_found(head, '/');
    assert(cidr[at] == '/');
    assert forall|k: int| 0 <= k < at implies #[trigger] cidr[k] != '/' by {
        assert(cidr[k] == head[k]);
    }
    assert(first_at(cidr, '/') == Some(at));
    assert(cidr.take(at) =~= head);
    assert(cidr.skip(at + 1) =~= tail);
}

/// An address is let in by the first network that holds it, as long as the networks before
/// are sound; it is kept out where none holds it.
pub proof fn law_one_network_lets_in(ip: IpAddr, cidrs: Seq<Seq<char>>, i: int)
    requires
        0 <= i <= cidrs.len(),
        forall|k: int|
            0 <= k < i ==> in_network(ip, #[trigger] cidrs[k]) == Ok::<bool, CidrError>(false),
    ensures
        i == cidrs.len() ==> allowed(ip, cidrs) == Ok::<bool, CidrError>(false),
        i < cidrs.len() && in_network(ip, cidrs[i]) == Ok::<bool, CidrError>(true) ==> allowed(
            ip,
            cidrs,
        ) == Ok::<bool, CidrError>(true),
        i < cidrs.len() && in_network(ip, cidrs[i]) is Err ==> allowed(ip, cidrs) == in_network(
            ip,
            cidrs[i],
        ),
    decreases cidrs.len(),
{
    if i > 0 {
        let rest = cidrs.skip(1);
        assert(in_network(ip, cidrs[0]) == Ok::<bool, CidrError>(false));
        assert forall|k: int| 0 <= k < i - 1 implies in_network(ip, #[trigger] rest[k]) == Ok::<
            bool,
            CidrError,
        >(false) by {
            assert(rest[k] == cidrs[k + 1]);
        }
        law_one_network_lets_in(ip, rest, i - 1);
        if i < cidrs.len() {
            assert(rest[i - 1] == cidrs[i]);
        }
    }
}

/// Without a network of its device a gateway trusts the addresses that differ from its own in
/// the last number at most, itself among them.
pub proof fn law_fallback_holds_the_neighbours(own: u32, ip: u32)
    requires
        own != 0,
    ensures
        fallback_cidr(IpAddr::V4(0)) is None,
        fallback_cidr(IpAddr::V4(own)) matches Some(cidr) && in_network(IpAddr::V4(ip), cidr)
            == Ok::<bool, CidrError>(ip / 256 == own / 256),
{
    let a = ipv4_octet(own, 0);
    let b = ipv4_octet(own, 1);
    let c = ipv4_octet(own, 2);
    let text = decimal(a) + "."@ + decimal(b) + "."@ + decimal(c) + "."@ + decimal(0);
    let base = (16777216 * a + 65536 * b + 256 * c + 0) as u32;
    lemma_fallback_base(own);
    law_ipv4_is_four_numbers(a, b, c, 0);
    lemma_dotted_without_slash(a, b, c, 0);
    law_network_is_base_and_prefix(IpAddr::V4(base), text, 24, base, ip);
    assert(fallback_cidr(IpAddr::V4(own))->Some_0 =~= text + "/"@ + decimal(24)) by {
        reveal_strlit(".");
        reveal_strlit("/");
        reveal_strlit(".0/24");
        reveal_with_fuel(decimal, 2);
        assert(decimal(24) =~= seq!['2', '4']);
        assert(decimal(0) =~= seq!['0']);
    }
}

proof fn lemma_fallback_base(own: u32)
    ensures
        ({
            let a = ipv4_octet(own, 0);
            let b = ipv4_octet(own, 1);
            let c = ipv4_octet(own, 2);
            let base = (16777216 * a + 65536 * b + 256 * c + 0) as u32;
            a <= 255 && b <= 255 && c <= 255 && base / 256 == own / 256
        }),
{
    let a = ipv4_octet(own, 0);
    let b = ipv4_octet(own, 1);
    let c = ipv4_octet(own, 2);
    assert(own / 256 == 65536 * a + 256 * b + c);
}

proof fn lemma_dotted_without_slash(a: nat, b: nat, c: nat, d: nat)
    ensures
        !(decimal(a) + "."@ + decimal(b) + "."@ + decimal(c) + "."@ + decimal(d)).contains('/'),
{
    reveal_strlit(".");
    law_numbers_read_back(a);
    law_numbers_read_back(b);
    law_numbers_read_back(c);
    law_numbers_read_back(d);
    let text = decimal(a) + "."@ + decimal(b) + "."@ + decimal(c) + "."@ + decimal(d);
    assert forall|k: int| 0 <= k < text.len() implies #[trigger] text[k] != '/' by {
        let one = decimal(a).len() + 1;
        let two = one + decimal(b).len() + 1;
        let three = two + decimal(c).len() + 1;
        if k < one - 1 {
            assert(is_digit(decimal(a)[k]));
        } else if one <= k < two - 1 {
            assert(text[k] == decimal(b)[k - one]);
            assert(is_digit(decimal(b)[k - one]));
        } else if two <= k < three - 1 {
            assert(text[k] == decimal(c)[k - two]);
            assert(is_digit(decimal(c)[k - two]));
        } else if three <= k {
            assert(text[k] == decimal(d)[k - three]);
            assert(is_digit(decimal(d)[k - three]));
        }
    }
}

/// The API trusts the networks that are set, else that of the underlay device, else one made
/// of the underlay address.
pub proof fn law_set_networks_come_first(
    configured: Seq<Seq<char>>,
    device: Seq<char>,
    ip: IpAddr,
)
    ensures
        configured.len() > 0 ==> api_networks(configured, Some(device), ip) == configured
            && api_networks(configured, None, ip) == configured,
        api_networks(Seq::empty(), Some(device), ip) == seq![device],
        fallback_cidr(ip) matches Some(cidr) ==> api_networks(Seq::empty(), None, ip)
            == seq![cidr],
        fallback_cidr(ip) is None ==> api_networks(Seq::empty(), None, ip).len() == 0,
{
}

/// The metrics are read by the networks that are set, else by that of the underlay device;
/// without either there is an error, and without metrics there are none.
pub proof fn law_metrics_are_guarded(metrics: MetricsConfig, device: Seq<char>)
    ensures
        metrics_networks(None, Some(device)) == Ok::<Seq<Seq<char>>, AccessFault>(Seq::empty()),
        metrics.trusted_source_cidrs@.len() > 0 ==> metrics_networks(Some(metrics), Some(device))
            == Ok::<Seq<Seq<char>>, AccessFault>(strings(metrics.trusted_source_cidrs@)),
        metrics.trusted_source_cidrs@.len() == 0 ==> metrics_networks(Some(metrics), Some(device))
            == Ok::<Seq<Seq<char>>, AccessFault>(seq![device]),
        metrics.trusted_source_cidrs@.len() == 0 ==> metrics_networks(Some(metrics), None)
            == Err::<Seq<Seq<char>>, AccessFault>(AccessFault::NoDeviceNetwork),
{
}

} // verus!
