//! What probes send, and what the replies say.
use super::probe::{ProbeOutcome, ProbeTarget};
use crate::net::{ip_text, push_ip, IpAddr};
use crate::text::{
    chars_of, contains_text, decimal, find_text, lossy_text, push_decimal, same_text, utf8_lossy,
};
use vstd::prelude::*;

verus! {

/// How much of a reply is looked at.
pub const MAX_RESPONSE_BYTES: usize = 65536;

/// How a probe is run.
#[derive(Clone, Copy, Debug, PartialEq, Eq, Structural)]
pub enum ProbeMethod {
    /// Ping an IPv4 address.
    Ping { address: u32 },
    Tcp,
    Udp,
    /// Ask for a page. `verify` says whether the certificate of the server is checked.
    Http { tls: bool, verify: bool },
    /// Nothing to run: the target passes.
    Skip,
    /// Nothing to run: the target fails.
    Refuse,
}

/// How a target is probed. Only IPv4 targets can be pinged; a certificate goes unchecked
/// only where the group asks for it.
pub open spec fn method_of(target: ProbeTarget) -> ProbeMethod {
    let kind = target.probe_type@;
    if kind == "ping"@ {
        match target.address {
            IpAddr::V4(address) => ProbeMethod::Ping { address },
            IpAddr::V6(_) => ProbeMethod::Refuse,
        }
    } else if kind == "tcp"@ {
        ProbeMethod::Tcp
    } else if kind == "udp"@ {
        ProbeMethod::Udp
    } else if kind == "http"@ {
        ProbeMethod::Http { tls: false, verify: true }
    } else if kind == "https"@ {
        ProbeMethod::Http { tls: true, verify: !target.skip_tls_verify }
    } else {
        ProbeMethod::Skip
    }
}

/// How a target is probed.
pub fn probe_method(target: &ProbeTarget) -> (method: ProbeMethod)
    ensures
        method == method_of(*target),
{
    let kind = target.probe_type.as_str();
    if same_text(kind, "ping") {
        match target.address {
            IpAddr::V4(address) => ProbeMethod::Ping { address },
            IpAddr::V6(_) => ProbeMethod::Refuse,
        }
    } else if same_text(kind, "tcp") {
        ProbeMethod::Tcp
    } else if same_text(kind, "udp") {
        ProbeMethod::Udp
    } else if same_text(kind, "http") {
        ProbeMethod::Http { tls: false, verify: true }
    } else if same_text(kind, "https") {
        ProbeMethod::Http { tls: true, verify: !target.skip_tls_verify }
    } else {
        ProbeMethod::Skip
    }
}

/// The outcome of a probe: what was found where one was run, a failure where running it
/// failed or it cannot be run, a pass where there is none to run.
pub fn probe_target(method: ProbeMethod, found: Option<ProbeOutcome>) -> (outcome: ProbeOutcome)
    ensures
        outcome == match method {
            ProbeMethod::Skip => ProbeOutcome::Pass,
            ProbeMethod::Refuse => ProbeOutcome::Fail,
            _ => match found {
                Some(outcome) => outcome,
                None => ProbeOutcome::Fail,
            },
        },
{
    match method {
        ProbeMethod::Skip => ProbeOutcome::Pass,
        ProbeMethod::Refuse => ProbeOutcome::Fail,
        _ => match found {
            Some(outcome) => outcome,
            None => ProbeOutcome::Fail,
        },
    }
}

/// The text that a reply has to hold, if any.
pub open spec fn expected(target: ProbeTarget) -> Seq<char> {
    match target.probe_resp {
        Some(text) => text@,
        None => Seq::empty(),
    }
}

// ---------------------------------------------------------------------------
// Ping
// ---------------------------------------------------------------------------

/// The sum of the big-endian words of a packet; an odd byte at the end is the
/// high half of a word.
pub open spec fn word_sum(packet: Seq<u8>) -> nat
    decreases packet.len(),
{
    if packet.len() == 0 {
        0
    } else if packet.len() % 2 == 1 {
        word_sum(packet.drop_last()) + packet.last() as nat * 256
    } else {
        let front = packet.take(packet.len() - 2);
        word_sum(front) + packet[packet.len() - 2] as nat * 256 + packet.last() as nat
    }
}

/// A number with what is above sixteen bits added back in.
pub open spec fn folded(n: nat) -> nat
    decreases n,
{
    if n < 0x1_0000 {
        n
    } else {
        folded(n % 0x1_0000 + n / 0x1_0000)
    }
}

/// The checksum of a packet.
pub open spec fn checksum(packet: Seq<u8>) -> u16 {
    (0xffff - folded(word_sum(packet))) as u16
}

proof fn lemma_folded_bound(n: nat)
    ensures
        folded(n) < 0x1_0000,
    decreases n,
{
    if n >= 0x1_0000 {
        lemma_folded_bound(n % 0x1_0000 + n / 0x1_0000);
    }
}

/// The checksum of a packet.
pub fn packet_checksum(packet: &[u8]) -> (sum: u16)
    requires
        packet.len() <= 131_074,
    ensures
        sum == checksum(packet@),
{
    let mut sum: u32 = 0;
    let mut index: usize = 0;
    while index + 1 < packet.len()
        invariant
            index <= packet.len() <= 131_074,
            index % 2 == 0,
            sum == word_sum(packet@.take(index as int)),
            sum <= 65535 * (index / 2),
        decreases packet.len() - index,
    {
        let ghost next = packet@.take(index + 2);
        assert(next.take(next.len() - 2) =~= packet@.take(index as int));
        sum = sum + (packet[index] as u32 * 256 + packet[index + 1] as u32);
        index += 2;
    }
    if index < packet.len() {
        assert(packet@.drop_last() =~= packet@.take(index as int));
        sum = sum + packet[index] as u32 * 256;
    } else {
        assert(packet@.take(index as int) =~= packet@);
    }
    let ghost whole = sum as nat;
    while sum >= 0x1_0000
        invariant
            folded(sum as nat) == folded(whole),
        decreases sum,
    {
        sum = sum % 0x1_0000 + sum / 0x1_0000;
    }
    0xffff - sum as u16
}

/// An echo request without its checksum.
pub open spec fn bare_request(identifier: u16, sequence: u16) -> Seq<u8> {
    seq![
        8u8,
        0u8,
        0u8,
        0u8,
        (identifier / 256) as u8,
        (identifier % 256) as u8,
        (sequence / 256) as u8,
        (sequence % 256) as u8,
    ]
}

/// An echo request.
pub open spec fn echo_request(identifier: u16, sequence: u16) -> Seq<u8> {
    let bare = bare_request(identifier, sequence);
    bare.update(2, (checksum(bare) / 256) as u8).update(3, (checksum(bare) % 256) as u8)
}

/// Builds an echo request.
pub fn ping_request(identifier: u16, sequence: u16) -> (packet: Vec<u8>)
    ensures
        packet@ == echo_request(identifier, sequence),
{
    let mut packet: Vec<u8> = Vec::new();
    packet.push(8);
    packet.push(0);
    packet.push(0);
    packet.push(0);
    packet.push((identifier / 256) as u8);
    packet.push((identifier % 256) as u8);
    packet.push((sequence / 256) as u8);
    packet.push((sequence % 256) as u8);
    assert(packet@ =~= bare_request(identifier, sequence));
    let sum = packet_checksum(packet.as_slice());
    packet.set(2, (sum / 256) as u8);
    packet.set(3, (sum % 256) as u8);
    packet
}

/// Where the ICMP message of a reply begins: behind the IPv4 header, where the
/// reply has one.
pub open spec fn echo_offset(reply: Seq<u8>) -> int {
    if reply[0] / 16 == 4 {
        (reply[0] % 16) * 4
    } else {
        0
    }
}

/// Whether bytes are the reply to an echo request.
pub open spec fn is_echo_reply(reply: Seq<u8>, identifier: u16, sequence: u16) -> bool {
    let at = echo_offset(reply);
    &&& reply.len() >= 8
    &&& reply.len() >= at + 8
    &&& reply[at] == 0
    &&& reply[at + 1] == 0
    &&& reply[at + 4] * 256 + reply[at + 5] == identifier
    &&& reply[at + 6] * 256 + reply[at + 7] == sequence
}

/// Judges the reply to an echo request.
pub fn ping_outcome(reply: &[u8], identifier: u16, sequence: u16) -> (outcome: ProbeOutcome)
    ensures
        outcome == if is_echo_reply(reply@, identifier, sequence) {
            ProbeOutcome::Pass
        } else {
            ProbeOutcome::Fail
        },
{
    if reply.len() < 8 {
        return ProbeOutcome::Fail;
    }
    let at: usize = if reply[0] / 16 == 4 {
        (reply[0] % 16) as usize * 4
    } else {
        0
    };
    if reply.len() < at + 8 {
        return ProbeOutcome::Fail;
    }
    if reply[at] == 0 && reply[at + 1] == 0 && reply[at + 4] as u16 * 256 + reply[at + 5] as u16
        == identifier && reply[at + 6] as u16 * 256 + reply[at + 7] as u16 == sequence {
        ProbeOutcome::Pass
    } else {
        ProbeOutcome::Fail
    }
}

// ---------------------------------------------------------------------------
// TCP
// ---------------------------------------------------------------------------

/// Whether `needle` stands in `bytes` at `at`.
pub open spec fn bytes_at(bytes: Seq<u8>, needle: Seq<u8>, at: int) -> bool {
    0 <= at && at + needle.len() <= bytes.len() && bytes.subrange(at, at + needle.len()) == needle
}

/// Whether `bytes` hold `needle`.
pub open spec fn bytes_hold(bytes: Seq<u8>, needle: Seq<u8>) -> bool {
    exists|at: int| #[trigger] bytes_at(bytes, needle, at)
}

fn matches_at(bytes: &[u8], needle: &[u8], at: usize) -> (b: bool)
    requires
        at + needle.len() <= bytes.len(),
    ensures
        b == bytes_at(bytes@, needle@, at as int),
{
    let ghost part = bytes@.subrange(at as int, at + needle@.len());
    let mut i: usize = 0;
    while i < needle.len()
        invariant
            i <= needle.len(),
            at + needle.len() <= bytes.len(),
            part == bytes@.subrange(at as int, at + needle@.len()),
            forall|j: int| 0 <= j < i ==> part[j] == needle@[j],
        decreases needle.len() - i,
    {
        assert(part[i as int] == bytes@[at + i]);
        if bytes[at + i] != needle[i] {
            return false;
        }
        i += 1;
    }
    assert(part =~= needle@);
    true
}

/// Whether `bytes` hold `needle`.
pub fn holds_bytes(bytes: &[u8], needle: &[u8]) -> (b: bool)
    ensures
        b == bytes_hold(bytes@, needle@),
{
    if needle.len() > bytes.len() {
        return false;
    }
    let last: usize = bytes.len() - needle.len();
    let mut at: usize = 0;
    while at < last
        invariant
            at <= last,
            last + needle.len() == bytes.len(),
            forall|j: int| 0 <= j < at ==> !#[trigger] bytes_at(bytes@, needle@, j),
        decreases last - at,
    {
        if matches_at(bytes, needle, at) {
            return true;
        }
        at += 1;
    }
    matches_at(bytes, needle, last)
}

/// What reading from a connection brought.
#[derive(Clone, Debug)]
pub enum TcpRead {
    Data(Vec<u8>),
    /// The other side closed, reading failed, or the time is over.
    End,
}

/// What to do next on a connection.
#[derive(Clone, Copy, Debug, PartialEq, Eq, Structural)]
pub enum TcpStep {
    Read,
    Done(ProbeOutcome),
}

/// What to do on a connection that the request was sent on: without an expected
/// reply the target passes.
pub fn tcp_begin(target: &ProbeTarget) -> (step: TcpStep)
    ensures
        step == if expected(*target).len() > 0 {
            TcpStep::Read
        } else {
            TcpStep::Done(ProbeOutcome::Pass)
        },
{
    match &target.probe_resp {
        Some(text) => if text.as_str().is_empty() {
            TcpStep::Done(ProbeOutcome::Pass)
        } else {
            TcpStep::Read
        },
        None => TcpStep::Done(ProbeOutcome::Pass),
    }
}

/// What to do after reading: the target passes as soon as what came in so far,
/// over any number of reads, holds the expected reply.
pub open spec fn tcp_step(response: Seq<u8>, text: Seq<char>) -> TcpStep {
    if bytes_hold(response, vstd::utf8::encode_utf8(text)) {
        TcpStep::Done(ProbeOutcome::Pass)
    } else if response.len() < MAX_RESPONSE_BYTES {
        TcpStep::Read
    } else {
        TcpStep::Done(ProbeOutcome::Fail)
    }
}

/// Takes what reading brought and says what to do next.
pub fn tcp_read(target: &ProbeTarget, response: &mut Vec<u8>, read: &TcpRead) -> (step: TcpStep)
    ensures
        match *read {
            TcpRead::End => {
                &&& final(response)@ == old(response)@
                &&& step == TcpStep::Done(ProbeOutcome::Fail)
            },
            TcpRead::Data(data) => {
                &&& final(response)@ == old(response)@ + data@
                &&& step == tcp_step(old(response)@ + data@, expected(*target))
            },
        },
{
    match read {
        TcpRead::End => TcpStep::Done(ProbeOutcome::Fail),
        TcpRead::Data(data) => {
            crate::bytes::push_bytes(response, data.as_slice());
            let empty = String::new();
            assert(empty@ =~= Seq::<char>::empty());
            let text = match &target.probe_resp {
                Some(text) => text.as_str(),
                None => empty.as_str(),
            };
            if holds_bytes(response.as_slice(), text.as_bytes()) {
                TcpStep::Done(ProbeOutcome::Pass)
            } else if response.len() < MAX_RESPONSE_BYTES {
                TcpStep::Read
            } else {
                TcpStep::Done(ProbeOutcome::Fail)
            }
        },
    }
}

// ---------------------------------------------------------------------------
// UDP
// ---------------------------------------------------------------------------

/// What waiting for a datagram brought.
#[derive(Clone, Debug)]
pub enum UdpReply {
    Data(Vec<u8>),
    /// Nothing came in time.
    Silence,
    /// The other side refused, or waiting failed.
    Refused,
}

/// Whether a target passes on what waiting brought: silence is a pass unless a
/// reply is expected.
pub open spec fn udp_passes(text: Seq<char>, reply: UdpReply) -> bool {
    match reply {
        UdpReply::Data(data) => text.len() == 0 || contains_text(utf8_lossy(data@), text),
        UdpReply::Silence => text.len() == 0,
        UdpReply::Refused => false,
    }
}

fn text_holds(data: &[u8], needle: &str) -> (b: bool)
    ensures
        b == contains_text(utf8_lossy(data@), needle@),
{
    let text = lossy_text(data);
    let chars = chars_of(text.as_str());
    let wanted = chars_of(needle);
    find_text(chars.as_slice(), wanted.as_slice()).is_some()
}

/// Judges what waiting for a datagram brought.
pub fn udp_outcome(target: &ProbeTarget, reply: &UdpReply) -> (outcome: ProbeOutcome)
    ensures
        outcome == if udp_passes(expected(*target), *reply) {
            ProbeOutcome::Pass
        } else {
            ProbeOutcome::Fail
        },
{
    let wanted = match &target.probe_resp {
        Some(text) => !text.as_str().is_empty(),
        None => false,
    };
    let pass = match reply {
        UdpReply::Data(data) => {
            if !wanted {
                true
            } else {
                match &target.probe_resp {
                    Some(text) => text_holds(data.as_slice(), text.as_str()),
                    None => true,
                }
            }
        },
        UdpReply::Silence => !wanted,
        UdpReply::Refused => false,
    };
    if pass {
        ProbeOutcome::Pass
    } else {
        ProbeOutcome::Fail
    }
}

// ---------------------------------------------------------------------------
// HTTP
// ---------------------------------------------------------------------------

/// An address and a port as text.
pub open spec fn socket_text(address: IpAddr, port: u16) -> Seq<char> {
    match address {
        IpAddr::V4(_) => ip_text(address).push(':') + decimal(port as nat),
        IpAddr::V6(_) => seq!['['] + ip_text(address) + seq![']', ':'] + decimal(port as nat),
    }
}

/// Appends an address and a port.
pub fn push_socket(out: &mut String, address: IpAddr, port: u16)
    ensures
        final(out)@ == old(out)@ + socket_text(address, port),
{
    match address {
        IpAddr::V4(_) => {
            push_ip(out, address);
            out.push(':');
            push_decimal(out, port as u64);
        },
        IpAddr::V6(_) => {
            out.push('[');
            push_ip(out, address);
            out.push(']');
            out.push(':');
            push_decimal(out, port as u64);
        },
    }
    assert(out@ =~= old(out)@ + socket_text(address, port));
}

/// The path that a probe asks for: its request, where that is a path.
pub open spec fn probe_path(target: ProbeTarget) -> Seq<char> {
    match target.probe_req {
        Some(path) => if path@.len() > 0 && path@[0] == '/' {
            path@
        } else {
            "/"@
        },
        None => "/"@,
    }
}

/// The URL that a probe asks for.
pub open spec fn probe_url(target: ProbeTarget, tls: bool) -> Seq<char> {
    (if tls {
        "https://"@
    } else {
        "http://"@
    }) + socket_text(target.address, target.port) + probe_path(target)
}

/// The URL that a probe asks for.
pub fn http_url(target: &ProbeTarget, tls: bool) -> (url: String)
    ensures
        url@ == probe_url(*target, tls),
{
    let mut url = if tls {
        String::from_str("https://")
    } else {
        String::from_str("http://")
    };
    push_socket(&mut url, target.address, target.port);
    match &target.probe_req {
        Some(path) => {
            let chars = chars_of(path.as_str());
            if chars.len() > 0 && chars[0] == '/' {
                url.append(path.as_str());
            } else {
                url.append("/");
            }
        },
        None => url.append("/"),
    }
    url
}

/// Whether a status says that a target is well: the expected one, or any
/// success or redirect.
pub open spec fn healthy_status(status: u16, expected: Option<u16>) -> bool {
    match expected {
        Some(value) => value == status,
        None => 200 <= status < 400,
    }
}

/// Whether a status says that a target is well.
pub fn http_status_is_healthy(status: u16, expected: Option<u16>) -> (b: bool)
    ensures
        b == healthy_status(status, expected),
{
    match expected {
        Some(value) => value == status,
        None => 200 <= status && status < 400,
    }
}

/// Whether a reply says that a target is well. `body` is what could be read of
/// the body, up to one byte more than is looked at.
pub open spec fn http_passes(target: ProbeTarget, status: u16, body: Option<Seq<u8>>) -> bool {
    &&& healthy_status(status, target.expected_status)
    &&& body matches Some(body) && body.len() <= MAX_RESPONSE_BYTES && (expected(target).len() == 0
        || bytes_hold(body, vstd::utf8::encode_utf8(expected(target))))
}

/// Judges a reply. `body` is missing where reading it failed.
pub fn http_outcome(target: &ProbeTarget, status: u16, body: &Option<Vec<u8>>) -> (outcome:
    ProbeOutcome)
    ensures
        outcome == if http_passes(
            *target,
            status,
            match *body {
                Some(body) => Some(body@),
                None => None,
            },
        ) {
            ProbeOutcome::Pass
        } else {
            ProbeOutcome::Fail
        },
{
    if !http_status_is_healthy(status, target.expected_status) {
        return ProbeOutcome::Fail;
    }
    match body {
        None => ProbeOutcome::Fail,
        Some(body) => {
            if body.len() > MAX_RESPONSE_BYTES {
                return ProbeOutcome::Fail;
            }
            match &target.probe_resp {
                None => ProbeOutcome::Pass,
                Some(text) => if text.as_str().is_empty() || holds_bytes(
                    body.as_slice(),
                    text.as_str().as_bytes(),
                ) {
                    ProbeOutcome::Pass
                } else {
                    ProbeOutcome::Fail
                },
            }
        },
    }
}

// ---------------------------------------------------------------------------
// Laws
// ---------------------------------------------------------------------------

proof fn lemma_request_sum(identifier: u16, sequence: u16, hi: u8, lo: u8)
    ensures
        word_sum(bare_request(identifier, sequence).update(2, hi).update(3, lo)) == 0x800 + hi * 256
            + lo + identifier + sequence,
{
    let packet = bare_request(identifier, sequence).update(2, hi).update(3, lo);
    reveal_with_fuel(word_sum, 5);
    let p6 = packet.take(6);
    let p4 = p6.take(4);
    let p2 = p4.take(2);
    assert(packet.take(packet.len() - 2) == p6);
    assert(p6.take(p6.len() - 2) == p4);
    assert(p4.take(p4.len() - 2) == p2);
    assert(p2.take(p2.len() - 2).len() == 0);
    assert(word_sum(p2) == 0x800);
    assert(word_sum(p4) == 0x800 + hi * 256 + lo);
    assert(word_sum(p6) == 0x800 + hi * 256 + lo + identifier);
}

/// The words of an echo request add up to all ones, as a receiver checks.
pub proof fn law_request_checks_out(identifier: u16, sequence: u16)
    ensures
        folded(word_sum(echo_request(identifier, sequence))) == 0xffff,
{
    let bare = bare_request(identifier, sequence);
    let sum = checksum(bare);
    assert(bare.update(2, 0u8).update(3, 0u8) =~= bare);
    lemma_request_sum(identifier, sequence, 0, 0);
    lemma_request_sum(identifier, sequence, (sum / 256) as u8, (sum % 256) as u8);
    let n: nat = (0x800 + identifier + sequence) as nat;
    lemma_folded_bound(n);
    reveal_with_fuel(folded, 4);
}

/// Each kind of probe is run as what it is called. Only an IPv4 address is pinged; HTTPS is
/// checked unless the group asks otherwise; a kind that is not known is not run.
pub proof fn law_kinds_are_run_as_called(target: ProbeTarget)
    ensures
        target.probe_type@ == "tcp"@ ==> method_of(target) == ProbeMethod::Tcp,
        target.probe_type@ == "udp"@ ==> method_of(target) == ProbeMethod::Udp,
        target.probe_type@ == "http"@ ==> method_of(target) == (ProbeMethod::Http {
            tls: false,
            verify: true,
        }),
        target.probe_type@ == "https"@ ==> method_of(target) == (ProbeMethod::Http {
            tls: true,
            verify: !target.skip_tls_verify,
        }),
        target.probe_type@ == "ping"@ ==> match (target.address, method_of(target)) {
            (IpAddr::V4(v4), ProbeMethod::Ping { address }) => address == v4,
            (IpAddr::V6(_), ProbeMethod::Refuse) => true,
            _ => false,
        },
        method_of(target) == ProbeMethod::Skip <==> target.probe_type@ != "ping"@
            && target.probe_type@ != "tcp"@ && target.probe_type@ != "udp"@ && target.probe_type@
            != "http"@ && target.probe_type@ != "https"@,
{
    reveal_strlit("ping");
    reveal_strlit("tcp");
    reveal_strlit("udp");
    reveal_strlit("http");
    reveal_strlit("https");
    assert("ping"@[0] != "http"@[0]);
    assert("tcp"@[0] != "udp"@[0]);
    assert("ping"@.len() != "tcp"@.len());
    assert("http"@.len() != "https"@.len());
    assert("http"@.len() != "tcp"@.len());
    assert("https"@.len() != "tcp"@.len());
    assert("https"@.len() != "ping"@.len());
}

/// An echo request has the type eight and the code zero, and holds the two numbers that the
/// reply is told by, most significant byte first.
pub proof fn law_request_holds_its_numbers(identifier: u16, sequence: u16)
    ensures
        ({
            let packet = echo_request(identifier, sequence);
            &&& packet.len() == 8
            &&& packet[0] == 8
            &&& packet[1] == 0
            &&& packet[4] * 256 + packet[5] == identifier
            &&& packet[6] * 256 + packet[7] == sequence
        }),
{
}

/// The reply to an echo request is told by its type and code, which are zero, and by the
/// two numbers of the request, whether an IPv4 header stands ahead of it or not; one with
/// another number is the reply to something else.
pub proof fn law_own_reply_is_known(
    header: Seq<u8>,
    message: Seq<u8>,
    identifier: u16,
    sequence: u16,
)
    requires
        header.len() == 0 || (header.len() >= 20 && header.len() % 4 == 0 && header.len() <= 60
            && header[0] == 64 + header.len() / 4),
        message.len() >= 8,
        message[0] == 0,
    ensures
        is_echo_reply(header + message, identifier, sequence) <==> message[1] == 0 && message[4]
            * 256 + message[5] == identifier && message[6] * 256 + message[7] == sequence,
{
    let reply = header + message;
    if header.len() == 0 {
        assert(reply =~= message);
        assert(echo_offset(reply) == 0);
    } else {
        assert(reply[0] == header[0]);
        let at = header.len() as int;
        assert(echo_offset(reply) == at);
        assert(reply[at] == message[0]);
        assert(reply[at + 1] == message[1]);
        assert(reply[at + 4] == message[4]);
        assert(reply[at + 5] == message[5]);
        assert(reply[at + 6] == message[6]);
        assert(reply[at + 7] == message[7]);
    }
}

/// A request that comes back is no reply, whoever it is from.
pub proof fn law_requests_are_no_replies(message: Seq<u8>, identifier: u16, sequence: u16)
    requires
        message.len() >= 8,
        message[0] != 0,
        message[0] / 16 != 4,
    ensures
        !is_echo_reply(message, identifier, sequence),
{
}

/// A connection passes as soon as the bytes of the expected text stand anywhere in what
/// came in, over any number of reads.
pub proof fn law_expected_text_is_found(before: Seq<u8>, after: Seq<u8>, text: Seq<char>)
    ensures
        tcp_step(before + vstd::utf8::encode_utf8(text) + after, text) == TcpStep::Done(
            ProbeOutcome::Pass,
        ),
{
    let needle = vstd::utf8::encode_utf8(text);
    let response = before + needle + after;
    let at = before.len() as int;
    assert(response.subrange(at, at + needle.len()) =~= needle);
    assert(bytes_at(response, needle, at));
}

/// Without the expected text a connection is read on until 65536 bytes came in, and fails
/// there; it passes only on the text.
pub proof fn law_missing_text_fails(response: Seq<u8>, text: Seq<char>)
    requires
        forall|at: int|
            0 <= at && at + vstd::utf8::encode_utf8(text).len() <= response.len()
                ==> #[trigger] response.subrange(at, at + vstd::utf8::encode_utf8(text).len())
                != vstd::utf8::encode_utf8(text),
    ensures
        response.len() < 65536 ==> tcp_step(response, text) == TcpStep::Read,
        response.len() >= 65536 ==> tcp_step(response, text) == TcpStep::Done(ProbeOutcome::Fail),
{
    let needle = vstd::utf8::encode_utf8(text);
    if bytes_hold(response, needle) {
        let at = choose|at: int| #[trigger] bytes_at(response, needle, at);
        assert(response.subrange(at, at + needle.len()) == needle);
    }
}

/// A datagram service passes in silence where no reply is expected and never otherwise; a
/// refusal always fails; a reply passes where it holds what is expected, or where nothing is.
pub proof fn law_datagram_verdicts(text: Seq<char>, data: Vec<u8>)
    ensures
        udp_passes(text, UdpReply::Silence) <==> text.len() == 0,
        !udp_passes(text, UdpReply::Refused),
        text.len() == 0 ==> udp_passes(text, UdpReply::Data(data)),
        text.len() > 0 ==> (udp_passes(text, UdpReply::Data(data)) <==> contains_text(
            utf8_lossy(data@),
            text,
        )),
{
}

/// A page is asked for at the address and port of the probe, by HTTPS if and only if the
/// probe says so, under the path that the group names if it is one, else at the root.
pub proof fn law_page_is_asked_for_at_the_target(target: ProbeTarget, v4: u32)
    requires
        target.address == IpAddr::V4(v4),
    ensures
        ({
            let at = ip_text(target.address) + seq![':'] + decimal(target.port as nat);
            let path = if target.probe_req matches Some(path) && path@.len() > 0 && path@[0]
                == '/' {
                target.probe_req->0@
            } else {
                seq!['/']
            };
            &&& probe_url(target, false) == "http://"@ + at + path
            &&& probe_url(target, true) == "https://"@ + at + path
        }),
{
    reveal_strlit("/");
    assert("/"@ =~= seq!['/']);
    assert(ip_text(target.address).push(':') =~= ip_text(target.address) + seq![':']);
}

/// A reply is well with the status that is expected and no other; where none is expected,
/// with every success and redirect and nothing else. Its body has to be readable, no longer
/// than 65536 bytes, and hold the expected text where there is one.
pub proof fn law_page_verdicts(
    target: ProbeTarget,
    status: u16,
    body: Seq<u8>,
    before: Seq<u8>,
    after: Seq<u8>,
)
    ensures
        !http_passes(target, status, None),
        body.len() > 65536 ==> !http_passes(target, status, Some(body)),
        target.expected_status is None && (status < 200 || status >= 400) ==> !http_passes(
            target,
            status,
            Some(body),
        ),
        target.expected_status matches Some(wanted) ==> wanted != status ==> !http_passes(
            target,
            status,
            Some(body),
        ),
        (target.expected_status == Some(status) || target.expected_status is None && 200 <= status
            < 400) && target.probe_resp is None && body.len() <= 65536 ==> http_passes(
            target,
            status,
            Some(body),
        ),
        (target.expected_status == Some(status) || target.expected_status is None && 200 <= status
            < 400) && (target.probe_resp matches Some(text) && body == before
            + vstd::utf8::encode_utf8(text@) + after && body.len() <= 65536) ==> http_passes(
            target,
            status,
            Some(body),
        ),
        http_passes(target, status, Some(body)) && (target.probe_resp matches Some(text)
            && text@.len() > 0) ==> bytes_hold(
            body,
            vstd::utf8::encode_utf8(target.probe_resp->0@),
        ),
{
    if let Some(text) = target.probe_resp {
        let needle = vstd::utf8::encode_utf8(text@);
        let whole = before + needle + after;
        let at = before.len() as int;
        assert(whole.subrange(at, at + needle.len()) =~= needle);
        assert(bytes_at(whole, needle, at));
    }
}

} // verus!
