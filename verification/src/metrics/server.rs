//! Who gets the figures.
use crate::access::{allowed, source_allowed, CidrError};
use crate::config::MetricsConfig;
use crate::net::{ip_text, parse_socket, push_ip, socket_value, IpAddr};
use crate::text::{
    chars_of, copy_range, find_first, first_at, law_places_are_found, same_text, strings, text_of,
};
use vstd::prelude::*;

verus! {

/// Whether and where the figures are served.
#[derive(Clone, Copy, Debug, PartialEq, Eq, Structural)]
pub enum MetricsGate {
    Disabled,
    BadListenAddress,
    Serve { ip: IpAddr, port: u16 },
}

/// Whether and where the figures are served.
pub fn metrics_gate(metrics: &Option<MetricsConfig>) -> (gate: MetricsGate)
    ensures
        gate == (match *metrics {
            None => MetricsGate::Disabled,
            Some(metrics) => if !metrics.enabled {
                MetricsGate::Disabled
            } else {
                match socket_value(metrics.listen@) {
                    Some((ip, port)) => MetricsGate::Serve { ip, port },
                    None => MetricsGate::BadListenAddress,
                }
            },
        }),
{
    match metrics {
        None => MetricsGate::Disabled,
        Some(metrics) => {
            if !metrics.enabled {
                return MetricsGate::Disabled;
            }
            let chars = chars_of(metrics.listen.as_str());
            match parse_socket(chars.as_slice()) {
                Some((ip, port)) => MetricsGate::Serve { ip, port },
                None => MetricsGate::BadListenAddress,
            }
        },
    }
}

/// The answer to a request.
#[derive(Clone, Debug)]
pub enum MetricsReply {
    /// The figures.
    Figures,
    /// A status and a text.
    Refused { status: u16, text: String },
}

/// The path of a URL: what stands ahead of the first question mark.
pub open spec fn url_path(url: Seq<char>) -> Seq<char> {
    match first_at(url, '?') {
        Some(at) => url.take(at),
        None => url,
    }
}

/// What a request is refused with, as a status and a text.
pub open spec fn refusal(
    url: Seq<char>,
    is_get: bool,
    source: Option<IpAddr>,
    trusted: Seq<Seq<char>>,
) -> Option<(u16, Seq<char>)> {
    if url_path(url) != "/metrics"@ {
        Some((404, "not found\n"@))
    } else if !is_get {
        Some((405, "method not allowed\n"@))
    } else {
        match source {
            None => Some((403, "missing remote address\n"@)),
            Some(ip) => if allowed(ip, trusted) matches Ok(true) {
                None
            } else {
                Some((403, "untrusted source "@ + ip_text(ip) + "\n"@))
            },
        }
    }
}

fn path_of(url: &str) -> (path: String)
    ensures
        path@ == url_path(url@),
{
    let chars = chars_of(url);
    match find_first(chars.as_slice(), '?') {
        Some(at) => {
            let head = copy_range(chars.as_slice(), 0, at);
            assert(head@ =~= chars@.take(at as int));
            text_of(head.as_slice())
        },
        None => text_of(chars.as_slice()),
    }
}

fn refuse(status: u16, text: &str) -> (reply: MetricsReply)
    ensures
        reply matches MetricsReply::Refused { status: s, text: t } && s == status && t@ == text@,
{
    MetricsReply::Refused { status, text: String::from_str(text) }
}

/// Answers a request: figures go only to trusted sources. A source that cannot be
/// checked is not trusted.
pub fn handle_request(url: &str, is_get: bool, source: Option<IpAddr>, trusted: &[String]) -> (reply:
    MetricsReply)
    ensures
        match (reply, refusal(url@, is_get, source, strings(trusted@))) {
            (MetricsReply::Figures, None) => true,
            (MetricsReply::Refused { status, text }, Some((code, words))) => status == code && text@
                == words,
            _ => false,
        },
{
    let path = path_of(url);
    if !same_text(path.as_str(), "/metrics") {
        return refuse(404, "not found\n");
    }
    if !is_get {
        return refuse(405, "method not allowed\n");
    }
    match source {
        None => refuse(403, "missing remote address\n"),
        Some(ip) => {
            let ok = match source_allowed(ip, trusted) {
                Ok(inside) => inside,
                Err(_) => false,
            };
            if ok {
                return MetricsReply::Figures;
            }
            let mut text = String::from_str("untrusted source ");
            push_ip(&mut text, ip);
            text.append("\n");
            MetricsReply::Refused { status: 403, text }
        },
    }
}

/// Figures go out only to a trusted source that asks for them with GET.
pub proof fn law_figures_need_trust(
    url: Seq<char>,
    is_get: bool,
    source: Option<IpAddr>,
    trusted: Seq<Seq<char>>,
)
    requires
        refusal(url, is_get, source, trusted) is None,
    ensures
        is_get,
        url_path(url) == "/metrics"@,
        source matches Some(ip) && allowed(ip, trusted) matches Ok(true),
{
}

/// A request for another path is not found, one that is no GET is not allowed, and one from
/// nowhere or from a source that is not trusted is forbidden.
pub proof fn law_refusals_have_their_status(
    url: Seq<char>,
    is_get: bool,
    source: Option<IpAddr>,
    trusted: Seq<Seq<char>>,
    ip: IpAddr,
)
    ensures
        ({
            let refused = refusal(url, is_get, source, trusted);
            let path = url_path(url);
            &&& path != "/metrics"@ ==> refused == Some((404u16, "not found\n"@))
            &&& path == "/metrics"@ && !is_get ==> refused == Some((405u16, "method not allowed\n"@))
            &&& path == "/metrics"@ && is_get && source is None ==> refused == Some(
                (403u16, "missing remote address\n"@),
            )
            &&& path == "/metrics"@ && is_get && source == Some(ip) && allowed(ip, trusted) == Ok::<
                bool,
                CidrError,
            >(true) ==> refused is None
            &&& path == "/metrics"@ && is_get && source == Some(ip) && allowed(ip, trusted) != Ok::<
                bool,
                CidrError,
            >(true) ==> refused == Some((403u16, "untrusted source "@ + ip_text(ip) + "\n"@))
        }),
{
}

/// What stands behind a question mark does not belong to the path.
pub proof fn law_queries_are_no_path(path: Seq<char>, query: Seq<char>)
    requires
        !path.contains('?'),
    ensures
        url_path(path) == path,
        url_path(path + "?"@ + query) == path,
{
    reveal_strlit("?");
    let url = path + "?"@ + query;
    let at = path.len() as int;
    law_places_are_found(url, '?');
    law_places_are_found(path, '?');
    assert(url[at] == '?');
    assert forall|k: int| 0 <= k < at implies #[trigger] url[k] != '?' by {
        assert(url[k] == path[k]);
    }
    assert(first_at(url, '?') == Some(at));
    assert(url.take(at) =~= path);
}

} // verus!
