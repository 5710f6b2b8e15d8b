//! One request of the load test.
use crate::config::Protocol;
use crate::text::{
    chars_of, contains_text, copy_range, decimal, find_first, find_text, first_at,
    law_places_are_found, lossy_text, occurs_at, push_decimal, starts_with, text_of, trim, trimmed,
    utf8_lossy,
};
use vstd::prelude::*;

verus! {

/// What came of a request.
#[derive(Clone, Debug)]
pub struct Sample {
    pub ts_ms: u128,
    pub protocol: Protocol,
    pub source_port: Option<u16>,
    pub ok: bool,
    pub latency_us: u128,
    pub backend: String,
    pub error: String,
}

/// What came of a request, as plain values.
pub struct SampleView {
    pub ts_ms: u128,
    pub protocol: Protocol,
    pub source_port: Option<u16>,
    pub ok: bool,
    pub latency_us: u128,
    pub backend: Seq<char>,
    pub error: Seq<char>,
}

impl View for Sample {
    type V = SampleView;

    open spec fn view(&self) -> SampleView {
        SampleView {
            ts_ms: self.ts_ms,
            protocol: self.protocol,
            source_port: self.source_port,
            ok: self.ok,
            latency_us: self.latency_us,
            backend: self.backend@,
            error: self.error@,
        }
    }
}

/// The first place of a text in another.
pub open spec fn first_place(s: Seq<char>, needle: Seq<char>) -> Option<int> {
    if contains_text(s, needle) {
        Some(
            choose|i: int|
                occurs_at(s, needle, i) && forall|j: int| 0 <= j < i ==> !occurs_at(s, needle, j),
        )
    } else {
        None
    }
}

/// The backend that a reply names: what stands behind the key, up to the next quote.
pub open spec fn private_ipv4(body: Seq<char>) -> Option<Seq<char>> {
    let key = "\"private_ipv4\":\""@;
    match first_place(body, key) {
        None => None,
        Some(at) => {
            let rest = body.skip(at + key.len());
            match first_at(rest, '"') {
                Some(end) => Some(rest.take(end)),
                None => None,
            }
        },
    }
}

/// The backend that a reply names.
pub fn extract_private_ipv4(body: &str) -> (ip: Option<String>)
    ensures
        match ip {
            Some(ip) => private_ipv4(body@) == Some(ip@),
            None => private_ipv4(body@) is None,
        },
{
    let chars = chars_of(body);
    let key = chars_of("\"private_ipv4\":\"");
    let at = match find_text(chars.as_slice(), key.as_slice()) {
        None => {
            return None;
        },
        Some(at) => at,
    };
    proof {
        assert(contains_text(chars@, key@));
        let k = choose|i: int|
            occurs_at(chars@, key@, i) && forall|j: int|
                0 <= j < i ==> !occurs_at(chars@, key@, j);
        assert(occurs_at(chars@, key@, at as int) && forall|j: int|
            0 <= j < at ==> !occurs_at(chars@, key@, j));
        assert(k == at);
        assert(chars@.skip(at as int).len() == chars@.len() - at);
    }
    assert(starts_with(chars@.skip(at as int), key@));
    assert(at + key.len() <= chars.len());
    let rest = copy_range(chars.as_slice(), at + key.len(), chars.len());
    assert(rest@ =~= chars@.skip(at + key@.len()));
    match find_first(rest.as_slice(), '"') {
        None => None,
        Some(end) => {
            let name = copy_range(rest.as_slice(), 0, end);
            assert(name@ =~= rest@.take(end as int));
            Some(text_of(name.as_slice()))
        },
    }
}

/// A character of one line of a table.
pub open spec fn flat_char(c: char) -> char {
    if c == '\t' || c == '\r' || c == '\n' {
        ' '
    } else {
        c
    }
}

/// A text for one line of a table: trimmed, without tabs and line ends.
pub open spec fn flat(s: Seq<char>) -> Seq<char> {
    trimmed(s).map_values(|c: char| flat_char(c))
}

/// A text for one line of a table.
pub fn sanitize(value: &str) -> (text: String)
    ensures
        text@ == flat(value@),
{
    let chars = chars_of(value);
    let kept = trim(chars.as_slice());
    let mut text = String::new();
    let mut i: usize = 0;
    assert(text@ =~= kept@.take(0).map_values(|c: char| flat_char(c)));
    while i < kept.len()
        invariant
            i <= kept.len(),
            text@ == kept@.take(i as int).map_values(|c: char| flat_char(c)),
        decreases kept.len() - i,
    {
        let c = kept[i];
        if c == '\t' || c == '\r' || c == '\n' {
            text.push(' ');
        } else {
            text.push(c);
        }
        assert(text@ =~= kept@.take(i + 1).map_values(|c: char| flat_char(c)));
        i += 1;
    }
    assert(kept@.take(kept@.len() as int) =~= kept@);
    text
}

/// What an input or output failed with.
#[derive(Clone, Copy, Debug, PartialEq, Eq, Structural)]
pub enum IoFault {
    TimedOut,
    WouldBlock,
    Other,
}

/// What a failure is called: a wait that ran out has one name, whichever way the
/// system put it.
pub fn describe_io_error(fault: IoFault, text: &str) -> (name: String)
    ensures
        name@ == (if fault is Other {
            text@
        } else {
            "timed out"@
        }),
{
    match fault {
        IoFault::TimedOut | IoFault::WouldBlock => String::from_str("timed out"),
        IoFault::Other => String::from_str(text),
    }
}

/// Whether a request on a reused connection is sent again on a fresh one.
pub fn should_retry_reused_tcp(failed: bool, response: &[u8]) -> (again: bool)
    ensures
        again == (failed || response@.len() == 0),
{
    failed || response.len() == 0
}

/// What a failed UDP request is called: with a fixed port, the worker and the request
/// are named too.
pub open spec fn udp_fault_text(error: Seq<char>, fixed: bool, worker: nat, seq: nat) -> Seq<char> {
    if fixed {
        error + "; worker="@ + decimal(worker) + " seq="@ + decimal(seq)
    } else {
        error
    }
}

/// What a failed UDP request is called.
pub fn udp_error(error: &str, fixed_port: bool, worker: u64, seq: u64) -> (text: String)
    ensures
        text@ == udp_fault_text(error@, fixed_port, worker as nat, seq as nat),
{
    let mut text = String::from_str(error);
    if fixed_port {
        text.append("; worker=");
        push_decimal(&mut text, worker);
        text.append(" seq=");
        push_decimal(&mut text, seq);
    }
    assert(text@ =~= udp_fault_text(error@, fixed_port, worker as nat, seq as nat));
    text
}

/// What a socket of the family of an address is bound to.
pub fn udp_bind_addr(is_ipv6: bool, port: Option<u16>) -> (addr: String)
    ensures
        addr@ == (if is_ipv6 {
            "[::]:"@
        } else {
            "0.0.0.0:"@
        }) + decimal(
            (match port {
                Some(port) => port,
                None => 0,
            }) as nat,
        ),
{
    let mut addr = if is_ipv6 {
        String::from_str("[::]:")
    } else {
        String::from_str("0.0.0.0:")
    };
    let port: u16 = match port {
        Some(port) => port,
        None => 0,
    };
    push_decimal(&mut addr, port as u64);
    addr
}

/// What came of a request that could not be sent.
pub fn failed_sample(ts_ms: u128, protocol: Protocol, error: String) -> (sample: Sample)
    ensures
        sample@ == (SampleView {
            ts_ms,
            protocol,
            source_port: None,
            ok: false,
            latency_us: 0,
            backend: "-"@,
            error: error@,
        }),
{
    Sample {
        ts_ms,
        protocol,
        source_port: None,
        ok: false,
        latency_us: 0,
        backend: String::from_str("-"),
        error,
    }
}

/// What came of a request, by the text of its reply. It passed where there is a reply
/// and it holds what is expected; otherwise the error is what went wrong, or the reply.
pub open spec fn sample_of(
    ts_ms: u128,
    protocol: Protocol,
    latency_us: u128,
    source_port: Option<u16>,
    body: Seq<char>,
    empty: bool,
    error: Seq<char>,
    expect: Seq<char>,
) -> SampleView {
    let ok = !empty && contains_text(body, expect);
    SampleView {
        ts_ms,
        protocol,
        source_port,
        ok,
        latency_us,
        backend: match private_ipv4(body) {
            Some(ip) => ip,
            None => "-"@,
        },
        error: if ok {
            Seq::empty()
        } else if error.len() == 0 {
            flat(body)
        } else {
            flat(error)
        },
    }
}

/// What came of a request, by the text of its reply.
pub fn judge_reply(
    ts_ms: u128,
    protocol: Protocol,
    latency_us: u128,
    source_port: Option<u16>,
    body: &str,
    empty: bool,
    error: &str,
    expect: &str,
) -> (sample: Sample)
    ensures
        sample@ == sample_of(
            ts_ms,
            protocol,
            latency_us,
            source_port,
            body@,
            empty,
            error@,
            expect@,
        ),
{
    let chars = chars_of(body);
    let wanted = chars_of(expect);
    let ok = !empty && match find_text(chars.as_slice(), wanted.as_slice()) {
        Some(at) => {
            assert(contains_text(chars@, wanted@));
            true
        },
        None => false,
    };
    let backend = match extract_private_ipv4(body) {
        Some(ip) => ip,
        None => String::from_str("-"),
    };
    let problem = chars_of(error);
    let error = if ok {
        String::new()
    } else if problem.len() == 0 {
        sanitize(body)
    } else {
        sanitize(error)
    };
    let sample = Sample { ts_ms, protocol, source_port, ok, latency_us, backend, error };
    sample
}

/// What came of a request.
pub fn finish_sample(
    ts_ms: u128,
    protocol: Protocol,
    latency_us: u128,
    source_port: Option<u16>,
    response: &[u8],
    error: &str,
    expect: &str,
) -> (sample: Sample)
    ensures
        sample@ == sample_of(
            ts_ms,
            protocol,
            latency_us,
            source_port,
            utf8_lossy(response@),
            response@.len() == 0,
            error@,
            expect@,
        ),
{
    let body = lossy_text(response);
    judge_reply(
        ts_ms,
        protocol,
        latency_us,
        source_port,
        body.as_str(),
        response.len() == 0,
        error,
        expect,
    )
}

/// A text for one line of a table stays on its line.
pub proof fn law_flat_text_has_one_line(s: Seq<char>)
    ensures
        forall|i: int|
            0 <= i < flat(s).len() ==> #[trigger] flat(s)[i] != '\n' && flat(s)[i] != '\r'
                && flat(s)[i] != '\t',
{
}

/// A request passed where its reply holds what is expected; then there is no error. Otherwise
/// the error is what went wrong, or the reply.
pub proof fn law_replies_are_judged(
    ts_ms: u128,
    protocol: Protocol,
    latency_us: u128,
    port: Option<u16>,
    body: Seq<char>,
    empty: bool,
    error: Seq<char>,
    expect: Seq<char>,
)
    ensures
        ({
            let sample = sample_of(ts_ms, protocol, latency_us, port, body, empty, error, expect);
            &&& sample.ts_ms == ts_ms
            &&& sample.protocol == protocol
            &&& sample.latency_us == latency_us
            &&& sample.source_port == port
            &&& sample.ok <==> !empty && contains_text(body, expect)
            &&& sample.ok ==> sample.error.len() == 0
            &&& !sample.ok && error.len() > 0 ==> sample.error == flat(error)
            &&& !sample.ok && error.len() == 0 ==> sample.error == flat(body)
            &&& private_ipv4(body) is None ==> sample.backend == "-"@
            &&& private_ipv4(body) matches Some(ip) ==> sample.backend == ip
        }),
{
}

/// The backend of a reply is what stands behind the first key, up to the next quote.
pub proof fn law_backend_stands_behind_its_key(
    before: Seq<char>,
    ip: Seq<char>,
    behind: Seq<char>,
)
    requires
        !ip.contains('"'),
        forall|j: int|
            0 <= j < before.len() ==> !occurs_at(
                before + "\"private_ipv4\":\""@ + ip + "\""@ + behind,
                "\"private_ipv4\":\""@,
                j,
            ),
    ensures
        private_ipv4(before + "\"private_ipv4\":\""@ + ip + "\""@ + behind) == Some(ip),
{
    let key = "\"private_ipv4\":\""@;
    reveal_strlit("\"");
    let body = before + key + ip + "\""@ + behind;
    let at = before.len() as int;
    assert(body.skip(at).take(key.len() as int) =~= key);
    assert(occurs_at(body, key, at));
    assert(first_place(body, key) == Some(at)) by {
        let found = choose|i: int|
            occurs_at(body, key, i) && forall|j: int| 0 <= j < i ==> !occurs_at(body, key, j);
        assert(occurs_at(body, key, at) && forall|j: int|
            0 <= j < at ==> !occurs_at(body, key, j));
        assert(found == at);
    }
    let rest = body.skip(at + key.len());
    assert(rest =~= ip + "\""@ + behind);
    let end = ip.len() as int;
    law_places_are_found(rest, '"');
    assert(rest[end] == '"');
    assert forall|k: int| 0 <= k < end implies #[trigger] rest[k] != '"' by {
        assert(rest[k] == ip[k]);
    }
    assert(first_at(rest, '"') == Some(end));
    assert(rest.take(end) =~= ip);
}

/// A text that is made flat keeps its length once it is trimmed, and every character but tabs
/// and line ends, which become blanks.
pub proof fn law_flat_text_keeps_its_characters(s: Seq<char>, i: int)
    requires
        0 <= i < trimmed(s).len(),
    ensures
        flat(s).len() == trimmed(s).len(),
        trimmed(s)[i] == '\t' || trimmed(s)[i] == '\r' || trimmed(s)[i] == '\n' ==> flat(s)[i] == ' ',
        trimmed(s)[i] != '\t' && trimmed(s)[i] != '\r' && trimmed(s)[i] != '\n' ==> flat(s)[i]
            == trimmed(s)[i],
{
}

/// A failed UDP request from a fixed port names its worker and its number.
pub proof fn law_fixed_ports_are_told(error: Seq<char>, worker: nat, seq: nat)
    ensures
        udp_fault_text(error, true, worker, seq) == error + "; worker="@ + decimal(worker)
            + " seq="@ + decimal(seq),
        udp_fault_text(error, false, worker, seq) == error,
{
}

} // verus!
