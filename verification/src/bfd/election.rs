//! Who becomes active.
use crate::bfd::engine::Severity;
use crate::config::{GatewayHaPeer, GatewayHaRuntimeConfig, GatewayNode};
use crate::native::ha::LocalGateway;
use crate::native::store::DirtyFlag;
use crate::net::{
    format_ip, ip_text, ip_value, parse_ip, parse_socket, socket_value, IpAddr,
};
use crate::text::{chars_of, opt_text, same_text};
use vstd::prelude::*;

verus! {

// ---------------------------------------------------------------------------
// What the peer says of itself
// ---------------------------------------------------------------------------

/// The text at a place of a JSON document.
pub uninterp spec fn json_text(body: Seq<char>, pointer: Seq<char>) -> Option<Seq<char>>;

/// The whole number at a place of a JSON document.
pub uninterp spec fn json_int(body: Seq<char>, pointer: Seq<char>) -> Option<i64>;

/// Calls `serde_json::from_str`, `Value::pointer` and `Value::as_str`: the text at a
/// place of a JSON document, none where the document is not valid or has no text
/// there. It depends on the document and the place alone.
#[verifier::external_body]
pub(crate) fn json_text_at(body: &str, pointer: &str) -> (text: Option<String>)
    ensures
        opt_text(text) == json_text(body@, pointer@),
{
    let value = serde_json::from_str::<serde_json::Value>(body).ok()?;
    value.pointer(pointer)?.as_str().map(str::to_string)
}

/// Calls `serde_json::from_str`, `Value::pointer` and `Value::as_i64`: the whole
/// number at a place of a JSON document, none where the document is not valid or
/// has none there. It depends on the document and the place alone.
#[verifier::external_body]
pub(crate) fn json_int_at(body: &str, pointer: &str) -> (number: Option<i64>)
    ensures
        number == json_int(body@, pointer@),
{
    let value = serde_json::from_str::<serde_json::Value>(body).ok()?;
    value.pointer(pointer)?.as_i64()
}

/// Whether what the peer says of itself makes it active since later than what is
/// known here: it is master, it names itself as active, and its revision is higher.
pub open spec fn newer_master(
    state: Option<Seq<char>>,
    active: Option<Seq<char>>,
    node: Option<Seq<char>>,
    revision: Option<i64>,
    peer_name: Seq<char>,
    local_revision: i64,
) -> bool {
    &&& state == Some("MASTER"@)
    &&& active is Some
    &&& active == node
    &&& node == Some(peer_name)
    &&& match revision {
        Some(revision) => revision > local_revision,
        None => 0 > local_revision,
    }
}

/// Whether what the peer says of itself makes it active since later.
pub fn is_newer_master(
    state: &Option<String>,
    active: &Option<String>,
    node: &Option<String>,
    revision: Option<i64>,
    peer_name: &str,
    local_revision: i64,
) -> (newer: bool)
    ensures
        newer == newer_master(
            opt_text(*state),
            opt_text(*active),
            opt_text(*node),
            revision,
            peer_name@,
            local_revision,
        ),
{
    let master = match state {
        Some(state) => same_text(state.as_str(), "MASTER"),
        None => false,
    };
    if !master {
        return false;
    }
    let itself = match (active, node) {
        (Some(active), Some(node)) => same_text(active.as_str(), node.as_str()) && same_text(
            node.as_str(),
            peer_name,
        ),
        _ => false,
    };
    if !itself {
        return false;
    }
    match revision {
        Some(revision) => revision > local_revision,
        None => 0 > local_revision,
    }
}

/// Whether the peer's account of itself makes it active since later than what is
/// known here.
pub fn peer_status_is_newer_master(body: &str, peer: &GatewayHaPeer, local_revision: i64) -> (newer:
    bool)
    ensures
        newer == newer_master(
            json_text(body@, "/native/state"@),
            json_text(body@, "/native/active_gateway"@),
            json_text(body@, "/native/node"@),
            json_int(body@, "/native/active_revision"@),
            peer.name@,
            local_revision,
        ),
{
    let state = json_text_at(body, "/native/state");
    let active = json_text_at(body, "/native/active_gateway");
    let node = json_text_at(body, "/native/node");
    let revision = json_int_at(body, "/native/active_revision");
    is_newer_master(&state, &active, &node, revision, peer.name.as_str(), local_revision)
}

/// Whether the peer's answer to a question for its account makes it active since later
/// than what is known here. An answer other than a success is no account.
pub fn peer_reports_newer_master(
    status: u16,
    body: &str,
    peer: &GatewayHaPeer,
    local_revision: i64,
) -> (newer: bool)
    ensures
        newer == (200 <= status < 300 && newer_master(
            json_text(body@, "/native/state"@),
            json_text(body@, "/native/active_gateway"@),
            json_text(body@, "/native/node"@),
            json_int(body@, "/native/active_revision"@),
            peer.name@,
            local_revision,
        )),
{
    200 <= status && status < 300 && peer_status_is_newer_master(body, peer, local_revision)
}

// ---------------------------------------------------------------------------
// Election
// ---------------------------------------------------------------------------

/// Whether this node takes over. `state` is the state of the session, `peer_was_up`
/// says that the peer was up before, `active_is_peer` that the peer is written down
/// as active, `active_peer_reachable` that it still answers.
pub open spec fn promotes(
    local_name: Seq<char>,
    preferred: Option<Seq<char>>,
    state: Seq<char>,
    peer_was_up: bool,
    active_is_peer: bool,
    active_peer_reachable: bool,
) -> bool {
    let is_preferred = preferred == Some(local_name);
    state == "down"@ && (peer_was_up || (active_is_peer && !active_peer_reachable && !is_preferred)
        || (!active_is_peer && is_preferred))
}

/// Whether this node takes over. A session that is up asks for nothing: a preferred
/// gateway does not take back what was switched by hand. Before a session was up,
/// only the preferred gateway takes over, and only where the peer is not written
/// down as active; where it is, the other one does once the peer does not answer.
pub fn should_promote_local(
    local_name: &str,
    preferred_active: &Option<String>,
    bfd_state: &str,
    peer_was_up: bool,
    active_is_peer: bool,
    active_peer_reachable: bool,
) -> (promote: bool)
    ensures
        promote == promotes(
            local_name@,
            opt_text(*preferred_active),
            bfd_state@,
            peer_was_up,
            active_is_peer,
            active_peer_reachable,
        ),
{
    if !same_text(bfd_state, "down") {
        return false;
    }
    let is_preferred = match preferred_active {
        Some(name) => same_text(name.as_str(), local_name),
        None => false,
    };
    peer_was_up || (active_is_peer && !active_peer_reachable && !is_preferred) || (!active_is_peer
        && is_preferred)
}

/// Whether the first peer is written down as active.
pub open spec fn active_is_peer(node: LocalGateway, ha: GatewayHaRuntimeConfig) -> bool {
    node.active matches Some(active) && ha.peers@.len() > 0 && (active.name@ == ha.peers@[0].name@
        || ip_text(active.underlay_ip) == ha.peers@[0].underlay_ip@)
}

/// Whether the first peer is written down as active.
pub fn is_active_peer(node: &LocalGateway, ha: &GatewayHaRuntimeConfig) -> (b: bool)
    ensures
        b == active_is_peer(*node, *ha),
{
    match &node.active {
        None => false,
        Some(active) => {
            if ha.peers.len() == 0 {
                return false;
            }
            let text = format_ip(active.underlay_ip);
            same_text(active.name.as_str(), ha.peers[0].name.as_str()) || same_text(
                text.as_str(),
                ha.peers[0].underlay_ip.as_str(),
            )
        },
    }
}

/// What an election needs to know from outside first.
#[derive(Clone, Copy, Debug, PartialEq, Eq, Structural)]
pub struct ElectionQuestions {
    /// Whether the peer still answers.
    pub reachable: bool,
    /// What the peer says of itself.
    pub status: bool,
}

/// What an election needs to know from outside.
pub fn election_questions(
    node: &LocalGateway,
    ha: &GatewayHaRuntimeConfig,
    state: &str,
    peer_was_up: bool,
) -> (questions: ElectionQuestions)
    ensures
        questions.reachable == (active_is_peer(*node, *ha) && !peer_was_up),
        questions.status == (state@ == "up"@ && node.is_active() && ha.peers@.len() > 0),
{
    ElectionQuestions {
        reachable: is_active_peer(node, ha) && !peer_was_up,
        status: same_text(state, "up") && node.local_gateway_is_active() && ha.peers.len() > 0,
    }
}

/// What an election decides.
#[derive(Clone, Copy, Debug, PartialEq, Eq, Structural)]
pub enum ElectionStep {
    Nothing,
    /// The first peer is active since later: switch to it.
    AdoptPeer,
    /// This node takes over.
    Promote,
}

/// What an election decides. `reachable` is whether the peer answers, `newer` whether
/// it says that it is active since later; each counts only where it was asked for.
pub open spec fn elected(
    node: LocalGateway,
    ha: GatewayHaRuntimeConfig,
    state: Seq<char>,
    peer_was_up: bool,
    reachable: bool,
    newer: bool,
) -> ElectionStep {
    if state == "up"@ && node.is_active() && ha.peers@.len() > 0 && newer {
        ElectionStep::AdoptPeer
    } else if promotes(
        node.node_name@,
        opt_text(ha.preferred_active),
        state,
        peer_was_up,
        active_is_peer(node, ha),
        active_is_peer(node, ha) && !peer_was_up && reachable,
    ) && !node.is_active() {
        ElectionStep::Promote
    } else {
        ElectionStep::Nothing
    }
}

/// Decides an election.
pub fn reconcile_election(
    node: &LocalGateway,
    ha: &GatewayHaRuntimeConfig,
    state: &str,
    peer_was_up: bool,
    reachable: bool,
    newer: bool,
) -> (step: ElectionStep)
    ensures
        step == elected(*node, *ha, state@, peer_was_up, reachable, newer),
{
    let local = node.local_gateway_is_active();
    if same_text(state, "up") && local && ha.peers.len() > 0 && newer {
        return ElectionStep::AdoptPeer;
    }
    let by_peer = is_active_peer(node, ha);
    let promote = should_promote_local(
        node.node_name.as_str(),
        &ha.preferred_active,
        state,
        peer_was_up,
        by_peer,
        by_peer && !peer_was_up && reachable,
    );
    if promote && !local {
        ElectionStep::Promote
    } else {
        ElectionStep::Nothing
    }
}

/// Where the control plane of a peer answers: where it says, else at its underlay
/// address and the port of the control plane here.
pub open spec fn peer_socket(peer: GatewayHaPeer, listen: Seq<char>, xsync_port: u16) -> Option<
    (IpAddr, u16),
> {
    let own = match peer.xds_addr {
        Some(text) => socket_value(text@),
        None => None,
    };
    match own {
        Some(socket) => Some(socket),
        None => match ip_value(peer.underlay_ip@) {
            None => None,
            Some(ip) => Some(
                (
                    ip,
                    match socket_value(listen) {
                        Some((_, port)) => port,
                        None => xsync_port,
                    },
                ),
            ),
        },
    }
}

/// Where the control plane of a peer answers.
pub fn peer_control_plane(peer: &GatewayHaPeer, listen: &str, xsync_port: u16) -> (socket: Option<
    (IpAddr, u16),
>)
    ensures
        socket == peer_socket(*peer, listen@, xsync_port),
{
    if let Some(text) = &peer.xds_addr {
        let chars = chars_of(text.as_str());
        if let Some(socket) = parse_socket(chars.as_slice()) {
            return Some(socket);
        }
    }
    let chars = chars_of(peer.underlay_ip.as_str());
    match parse_ip(chars.as_slice()) {
        None => None,
        Some(ip) => {
            let own = chars_of(listen);
            let port: u16 = match parse_socket(own.as_slice()) {
                Some((_, port)) => port,
                None => xsync_port,
            };
            Some((ip, port))
        },
    }
}

// ---------------------------------------------------------------------------
// What an election publishes
// ---------------------------------------------------------------------------

/// What kind of change an election came to.
#[derive(Clone, Copy, Debug, PartialEq, Eq, Structural)]
pub enum ElectionOutcome {
    Changed,
    SwitchoverFailed,
}

/// What is published of an election. `gateway` is the one that was switched to.
#[derive(Clone, Debug)]
pub struct ElectionEvent {
    pub outcome: ElectionOutcome,
    pub severity: Severity,
    pub title: String,
    pub text: String,
    pub gateway: String,
}

/// What is published of an election, as plain values.
pub struct ElectionEventView {
    pub outcome: ElectionOutcome,
    pub severity: Severity,
    pub title: Seq<char>,
    pub text: Seq<char>,
    pub gateway: Seq<char>,
}

impl View for ElectionEvent {
    type V = ElectionEventView;

    open spec fn view(&self) -> ElectionEventView {
        ElectionEventView {
            outcome: self.outcome,
            severity: self.severity,
            title: self.title@,
            text: self.text@,
            gateway: self.gateway@,
        }
    }
}

/// What is published of an election: what was decided, for which gateway, and what
/// the switch failed with.
pub open spec fn election_news(
    step: ElectionStep,
    gateway: Seq<char>,
    error: Option<Seq<char>>,
) -> Option<ElectionEventView> {
    match (step, error) {
        (ElectionStep::Nothing, _) => None,
        (ElectionStep::AdoptPeer, Some(error)) => Some(
            ElectionEventView {
                outcome: ElectionOutcome::SwitchoverFailed,
                severity: Severity::Critical,
                title: "HA state adoption failed"@,
                text: "Failed to adopt newer active gateway state from "@ + gateway + ": "@ + error
                    + "."@,
                gateway,
            },
        ),
        (ElectionStep::AdoptPeer, None) => Some(
            ElectionEventView {
                outcome: ElectionOutcome::Changed,
                severity: Severity::Warning,
                title: "HA state changed"@,
                text: "Adopted newer active gateway state from "@ + gateway + "."@,
                gateway,
            },
        ),
        (ElectionStep::Promote, Some(error)) => Some(
            ElectionEventView {
                outcome: ElectionOutcome::SwitchoverFailed,
                severity: Severity::Critical,
                title: "HA BFD promotion failed"@,
                text: "Failed to promote "@ + gateway + " after BFD peer failure: "@ + error
                    + "."@,
                gateway,
            },
        ),
        (ElectionStep::Promote, None) => Some(
            ElectionEventView {
                outcome: ElectionOutcome::Changed,
                severity: Severity::Critical,
                title: "HA BFD promotion"@,
                text: gateway + " became MASTER after BFD peer failure."@,
                gateway,
            },
        ),
    }
}

/// What is published of an election.
pub fn election_event(step: ElectionStep, gateway: &str, error: &Option<String>) -> (event: Option<
    ElectionEvent,
>)
    ensures
        match (event, election_news(step, gateway@, opt_text(*error))) {
            (Some(event), Some(news)) => event@ == news,
            (None, None) => true,
            _ => false,
        },
{
    let (outcome, severity, title, text) = match (step, error) {
        (ElectionStep::Nothing, _) => {
            return None;
        },
        (ElectionStep::AdoptPeer, Some(error)) => {
            let mut text = String::from_str("Failed to adopt newer active gateway state from ");
            text.append(gateway);
            text.append(": ");
            text.append(error.as_str());
            text.append(".");
            (
                ElectionOutcome::SwitchoverFailed,
                Severity::Critical,
                String::from_str("HA state adoption failed"),
                text,
            )
        },
        (ElectionStep::AdoptPeer, None) => {
            let mut text = String::from_str("Adopted newer active gateway state from ");
            text.append(gateway);
            text.append(".");
            (
                ElectionOutcome::Changed,
                Severity::Warning,
                String::from_str("HA state changed"),
                text,
            )
        },
        (ElectionStep::Promote, Some(error)) => {
            let mut text = String::from_str("Failed to promote ");
            text.append(gateway);
            text.append(" after BFD peer failure: ");
            text.append(error.as_str());
            text.append(".");
            (
                ElectionOutcome::SwitchoverFailed,
                Severity::Critical,
                String::from_str("HA BFD promotion failed"),
                text,
            )
        },
        (ElectionStep::Promote, None) => {
            let mut text = String::from_str(gateway);
            text.append(" became MASTER after BFD peer failure.");
            (
                ElectionOutcome::Changed,
                Severity::Critical,
                String::from_str("HA BFD promotion"),
                text,
            )
        },
    };
    Some(ElectionEvent { outcome, severity, title, text, gateway: String::from_str(gateway) })
}

/// Whether an election made this node active.
pub open spec fn promoted(step: ElectionStep, error: Option<Seq<char>>) -> bool {
    step == ElectionStep::Promote && error is None
}

/// Ends an election: what is published of it. A node that was made active brings its
/// datapath in line with the proxy state anew; any other switch leaves it as it is.
pub fn finish_election(
    flag: &mut DirtyFlag,
    step: ElectionStep,
    gateway: &str,
    error: &Option<String>,
) -> (event: Option<ElectionEvent>)
    ensures
        final(flag).dirty == (old(flag).dirty || promoted(step, opt_text(*error))),
        match (event, election_news(step, gateway@, opt_text(*error))) {
            (Some(event), Some(news)) => event@ == news,
            (None, None) => true,
            _ => false,
        },
{
    if step == ElectionStep::Promote && error.is_none() {
        flag.mark_state_dirty();
    }
    election_event(step, gateway, error)
}

// ---------------------------------------------------------------------------
// Laws
// ---------------------------------------------------------------------------

/// A promotion that was decided and carried out is always published as a change and
/// always has the datapath brought in line; one that failed never has.
pub proof fn law_promotion_is_followed_up(
    node: LocalGateway,
    ha: GatewayHaRuntimeConfig,
    state: Seq<char>,
    peer_was_up: bool,
    reachable: bool,
    newer: bool,
    error: Option<Seq<char>>,
)
    ensures
        ({
            let step = elected(node, ha, state, peer_was_up, reachable, newer);
            &&& promoted(step, error) ==> (match election_news(step, node.node_name@, error) {
                Some(news) => news.outcome == ElectionOutcome::Changed && news.severity
                    == Severity::Critical,
                None => false,
            })
            &&& step == ElectionStep::Promote && error is Some ==> !promoted(step, error)
            &&& step != ElectionStep::Promote ==> !promoted(step, error)
        }),
{
}

/// A session that is up promotes no one.
pub proof fn law_healthy_session_promotes_no_one(
    local_name: Seq<char>,
    preferred: Option<Seq<char>>,
    peer_was_up: bool,
    active_is_peer: bool,
    reachable: bool,
)
    ensures
        !promotes(local_name, preferred, "up"@, peer_was_up, active_is_peer, reachable),
{
    reveal_strlit("up");
    reveal_strlit("down");
    assert("up"@.len() != "down"@.len());
}

/// Before the peer was ever up, at most one of two gateways takes over: where both
/// see the same facts, not both promote themselves.
pub proof fn law_startup_promotes_one(
    first: Seq<char>,
    second: Seq<char>,
    preferred: Option<Seq<char>>,
    state: Seq<char>,
)
    requires
        first != second,
    ensures
        !(promotes(first, preferred, state, false, false, false) && promotes(
            second,
            preferred,
            state,
            false,
            false,
            false,
        )),
{
}

/// A preferred gateway that comes back does not take over from a peer that is
/// written down as active, whether that answers or not.
pub proof fn law_preferred_does_not_preempt(local_name: Seq<char>, state: Seq<char>, reachable: bool)
    ensures
        !promotes(local_name, Some(local_name), state, false, true, reachable),
{
}

/// A node that is active already is not promoted.
pub proof fn law_active_is_not_promoted(
    node: LocalGateway,
    ha: GatewayHaRuntimeConfig,
    state: Seq<char>,
    peer_was_up: bool,
    reachable: bool,
    newer: bool,
)
    requires
        node.is_active(),
    ensures
        elected(node, ha, state, peer_was_up, reachable, newer) != ElectionStep::Promote,
{
}

/// Of two masters that say so of each other, not both give way: only a higher
/// revision is newer.
pub proof fn law_only_higher_revision_is_newer(
    state: Option<Seq<char>>,
    active: Option<Seq<char>>,
    node: Option<Seq<char>>,
    peer_name: Seq<char>,
    ours: i64,
    theirs: i64,
)
    requires
        newer_master(state, active, node, Some(theirs), peer_name, ours),
    ensures
        !newer_master(state, active, node, Some(ours), peer_name, theirs),
{
}

/// A gateway that is not active takes over once a peer that was up falls silent, whichever
/// gateway is preferred, whichever is written down as active, and whether it answers.
pub proof fn law_lost_peer_is_replaced(
    node: LocalGateway,
    ha: GatewayHaRuntimeConfig,
    reachable: bool,
    newer: bool,
)
    requires
        node.active matches Some(active) ==> active.name@ != node.node_name@ && active.underlay_ip
            != node.underlay_ip,
    ensures
        elected(node, ha, "down"@, true, reachable, newer) == ElectionStep::Promote,
{
    reveal_strlit("up");
    reveal_strlit("down");
    assert("up"@.len() != "down"@.len());
}

/// A peer that was never up since this node started, and that is written down as active by
/// its name or by its address: it is replaced if and only if it does not answer and this
/// node is not the preferred one.
pub proof fn law_silent_active_peer_is_replaced_by_the_other(
    node: LocalGateway,
    ha: GatewayHaRuntimeConfig,
    active: GatewayNode,
    reachable: bool,
    newer: bool,
)
    requires
        node.active == Some(active),
        active.name@ != node.node_name@,
        active.underlay_ip != node.underlay_ip,
        ha.peers@.len() > 0,
        active.name@ == ha.peers@[0].name@ || ip_text(active.underlay_ip)
            == ha.peers@[0].underlay_ip@,
    ensures
        elected(node, ha, "down"@, false, reachable, newer) == (if !reachable && !(
        ha.preferred_active matches Some(name) && name@ == node.node_name@) {
            ElectionStep::Promote
        } else {
            ElectionStep::Nothing
        }),
{
    reveal_strlit("up");
    reveal_strlit("down");
    assert("up"@.len() != "down"@.len());
}

/// Where no peer was up and none is written down as active, the preferred gateway takes
/// over, and no other.
pub proof fn law_preferred_starts(
    node: LocalGateway,
    ha: GatewayHaRuntimeConfig,
    reachable: bool,
    newer: bool,
)
    requires
        node.active matches Some(active) ==> active.name@ != node.node_name@ && active.underlay_ip
            != node.underlay_ip && (ha.peers@.len() > 0 ==> active.name@ != ha.peers@[0].name@
            && ip_text(active.underlay_ip) != ha.peers@[0].underlay_ip@),
    ensures
        elected(node, ha, "down"@, false, reachable, newer) == (if ha.preferred_active matches Some(
            name,
        ) && name@ == node.node_name@ {
            ElectionStep::Promote
        } else {
            ElectionStep::Nothing
        }),
{
    reveal_strlit("up");
    reveal_strlit("down");
    assert("up"@.len() != "down"@.len());
}

/// While the session is up an active gateway gives way to a peer that is active since
/// later, and nothing else happens. In a state other than up and down nothing happens.
pub proof fn law_only_a_newer_peer_is_adopted(
    node: LocalGateway,
    ha: GatewayHaRuntimeConfig,
    state: Seq<char>,
    peer_was_up: bool,
    reachable: bool,
    newer: bool,
)
    requires
        state != "down"@,
    ensures
        elected(node, ha, state, peer_was_up, reachable, newer) == (if state == "up"@ && newer
            && ha.peers@.len() > 0 && (node.active matches Some(active) && (active.name@
            == node.node_name@ || active.underlay_ip == node.underlay_ip)) {
            ElectionStep::AdoptPeer
        } else {
            ElectionStep::Nothing
        }),
{
}

/// An active gateway keeps its place while the session is down.
pub proof fn law_active_gateway_stays(
    node: LocalGateway,
    ha: GatewayHaRuntimeConfig,
    active: GatewayNode,
    peer_was_up: bool,
    reachable: bool,
    newer: bool,
)
    requires
        node.active == Some(active),
        active.name@ == node.node_name@ || active.underlay_ip == node.underlay_ip,
    ensures
        elected(node, ha, "down"@, peer_was_up, reachable, newer) == ElectionStep::Nothing,
{
    reveal_strlit("up");
    reveal_strlit("down");
    assert("up"@.len() != "down"@.len());
}

/// A peer is active since later only where it calls itself the master and the active
/// gateway by the name that it is known by, with a revision above the one known here; an
/// account without a revision counts as revision zero.
pub proof fn law_newer_master_is_named(
    peer_name: Seq<char>,
    theirs: i64,
    ours: i64,
    other: Seq<char>,
)
    ensures
        newer_master(
            Some("MASTER"@),
            Some(peer_name),
            Some(peer_name),
            Some(theirs),
            peer_name,
            ours,
        ) <==> theirs > ours,
        newer_master(
            Some("MASTER"@),
            Some(peer_name),
            Some(peer_name),
            None,
            peer_name,
            ours,
        ) <==> 0 > ours,
        other != "MASTER"@ ==> !newer_master(
            Some(other),
            Some(peer_name),
            Some(peer_name),
            Some(theirs),
            peer_name,
            ours,
        ),
        other != peer_name ==> !newer_master(
            Some("MASTER"@),
            Some(other),
            Some(other),
            Some(theirs),
            peer_name,
            ours,
        ) && !newer_master(
            Some("MASTER"@),
            Some(other),
            Some(peer_name),
            Some(theirs),
            peer_name,
            ours,
        ) && !newer_master(
            Some("MASTER"@),
            Some(peer_name),
            Some(other),
            Some(theirs),
            peer_name,
            ours,
        ),
{
}

/// A peer answers at the socket that it names; where it names none, at its underlay address
/// and the port that the control plane listens on here, or else the one for synchronising.
pub proof fn law_peer_is_asked_where_it_answers(
    peer: GatewayHaPeer,
    listen: Seq<char>,
    xsync_port: u16,
    ip: IpAddr,
    port: u16,
)
    ensures
        peer.xds_addr matches Some(text) && socket_value(text@) == Some((ip, port))
            ==> peer_socket(peer, listen, xsync_port) == Some((ip, port)),
        peer.xds_addr is None && ip_value(peer.underlay_ip@) == Some(ip) && socket_value(listen)
            is None ==> peer_socket(peer, listen, xsync_port) == Some((ip, xsync_port)),
        peer.xds_addr is None && ip_value(peer.underlay_ip@) == Some(ip) && (socket_value(
            listen,
        ) matches Some(own) && own.1 == port) ==> peer_socket(peer, listen, xsync_port) == Some(
            (ip, port),
        ),
{
}

/// A gateway that was made active, and one whose newer state was adopted, is told of; a
/// switch that failed is told of with its error; where nothing was done nothing is told.
pub proof fn law_elections_are_told(gateway: Seq<char>, error: Seq<char>)
    ensures
        election_news(ElectionStep::Nothing, gateway, None) is None,
        election_news(ElectionStep::Nothing, gateway, Some(error)) is None,
        election_news(ElectionStep::Promote, gateway, None) matches Some(news) && news.outcome
            == ElectionOutcome::Changed && news.severity == Severity::Critical && news.gateway
            == gateway && news.title == "HA BFD promotion"@ && news.text == gateway
            + " became MASTER after BFD peer failure."@,
        election_news(ElectionStep::Promote, gateway, Some(error)) matches Some(news)
            && news.outcome == ElectionOutcome::SwitchoverFailed && news.severity
            == Severity::Critical && news.gateway == gateway && news.title
            == "HA BFD promotion failed"@ && news.text == "Failed to promote "@ + gateway
            + " after BFD peer failure: "@ + error + "."@,
        election_news(ElectionStep::AdoptPeer, gateway, None) matches Some(news) && news.outcome
            == ElectionOutcome::Changed && news.severity == Severity::Warning && news.gateway
            == gateway && news.title == "HA state changed"@ && news.text
            == "Adopted newer active gateway state from "@ + gateway + "."@,
        election_news(ElectionStep::AdoptPeer, gateway, Some(error)) matches Some(news)
            && news.outcome == ElectionOutcome::SwitchoverFailed && news.severity
            == Severity::Critical && news.gateway == gateway && news.title
            == "HA state adoption failed"@ && news.text
            == "Failed to adopt newer active gateway state from "@ + gateway + ": "@ + error
            + "."@,
{
}

/// The peer is the active gateway where the one that is written down has its name or its
/// underlay address; without a peer, or without an active gateway, it is not.
pub proof fn law_active_peer_is_recognised(
    node: LocalGateway,
    ha: GatewayHaRuntimeConfig,
    active: GatewayNode,
)
    ensures
        node.active is None ==> !active_is_peer(node, ha),
        ha.peers@.len() == 0 ==> !active_is_peer(node, ha),
        node.active == Some(active) && ha.peers@.len() > 0 && active.name@ == ha.peers@[0].name@
            ==> active_is_peer(node, ha),
        node.active == Some(active) && ha.peers@.len() > 0 && ip_text(active.underlay_ip)
            == ha.peers@[0].underlay_ip@ ==> active_is_peer(node, ha),
        node.active == Some(active) && ha.peers@.len() > 0 && active.name@ != ha.peers@[0].name@
            && ip_text(active.underlay_ip) != ha.peers@[0].underlay_ip@ ==> !active_is_peer(
            node,
            ha,
        ),
{
}

} // verus!
