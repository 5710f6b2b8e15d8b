//! The loop that watches the peer, one event at a time.
use super::packet::{acceptable, authenticated_packet, checked, parse, tagged, BfdControl, BfdState};
use super::session::{
    after_packet, after_silence, begun, build_control, current_state, hear, new_session,
    next_control, session_model, time_out, BfdTransition, SessionModel, DIAG_EXPIRED,
    DIAG_SIGNALED,
};
use crate::config::{BfdConfig, FailoverMode, GatewayHaRuntimeConfig};
use crate::net::{format_ip, groups_of, ip_text, ip_value, ipv6_group, parse_ip, IpAddr};
use crate::text::{
    clone_opt_text, chars_of, decimal, lower, lower_text, opt_text, push_decimal, same_text,
};
use vstd::prelude::*;

verus! {

// ---------------------------------------------------------------------------
// Status
// ---------------------------------------------------------------------------

/// How watching the peer fares.
#[derive(Clone, Debug)]
pub struct BfdStatus {
    pub peer_ip: Option<String>,
    pub source_ip: Option<String>,
    pub state: String,
    pub last_rx_ms: Option<u128>,
    pub last_error: Option<String>,
}

/// What a status shows.
#[verifier::ext_equal]
pub struct StatusView {
    pub peer_ip: Option<Seq<char>>,
    pub source_ip: Option<Seq<char>>,
    pub state: Seq<char>,
    pub last_rx_ms: Option<u128>,
    pub last_error: Option<Seq<char>>,
}

impl View for BfdStatus {
    type V = StatusView;

    open spec fn view(&self) -> StatusView {
        StatusView {
            peer_ip: opt_text(self.peer_ip),
            source_ip: opt_text(self.source_ip),
            state: self.state@,
            last_rx_ms: self.last_rx_ms,
            last_error: opt_text(self.last_error),
        }
    }
}

impl StatusView {
    /// The status once a state was noted: an error is over.
    pub open spec fn in_state(
        self,
        state: Seq<char>,
        peer_ip: Option<Seq<char>>,
        source_ip: Option<Seq<char>>,
    ) -> StatusView {
        StatusView {
            peer_ip,
            source_ip,
            state,
            last_rx_ms: if state == "up"@ {
                Some(0u128)
            } else {
                self.last_rx_ms
            },
            last_error: None,
        }
    }

    /// The status once an error was noted.
    pub open spec fn in_error(self, error: Seq<char>) -> StatusView {
        StatusView { state: "error"@, last_error: Some(error), ..self }
    }
}

impl BfdStatus {
    /// The status before watching starts.
    pub fn new() -> (status: Self)
        ensures
            status.peer_ip is None,
            status.source_ip is None,
            status.state@ == "disabled"@,
            status.last_rx_ms is None,
            status.last_error is None,
    {
        BfdStatus {
            peer_ip: None,
            source_ip: None,
            state: String::from_str("disabled"),
            last_rx_ms: None,
            last_error: None,
        }
    }

    /// Notes a state; an error is over.
    pub fn set_state(&mut self, state: &str, peer_ip: Option<String>, source_ip: Option<String>)
        ensures
            final(self).state@ == state@,
            final(self).peer_ip == peer_ip,
            final(self).source_ip == source_ip,
            final(self).last_error is None,
            final(self).last_rx_ms == if state@ == "up"@ {
                Some(0u128)
            } else {
                old(self).last_rx_ms
            },
    {
        self.state = String::from_str(state);
        self.peer_ip = peer_ip;
        self.source_ip = source_ip;
        self.last_error = None;
        if same_text(state, "up") {
            self.last_rx_ms = Some(0);
        }
    }

    /// Notes an error.
    pub fn set_error(&mut self, error: String)
        ensures
            final(self).state@ == "error"@,
            final(self).last_error == Some(error),
            final(self).peer_ip == old(self).peer_ip,
            final(self).source_ip == old(self).source_ip,
            final(self).last_rx_ms == old(self).last_rx_ms,
    {
        self.state = String::from_str("error");
        self.last_error = Some(error);
    }

    /// A copy of the status.
    pub fn snapshot(&self) -> (status: BfdStatus)
        ensures
            status == *self,
    {
        BfdStatus {
            peer_ip: clone_opt_text(&self.peer_ip),
            source_ip: clone_opt_text(&self.source_ip),
            state: self.state.clone(),
            last_rx_ms: self.last_rx_ms,
            last_error: clone_opt_text(&self.last_error),
        }
    }
}

// ---------------------------------------------------------------------------
// Whom to watch, and how
// ---------------------------------------------------------------------------

/// Whether there is a peer to watch.
#[derive(Clone, Copy, Debug, PartialEq, Eq, Structural)]
pub enum BfdGate {
    /// Watching is switched off.
    Disabled,
    /// There is no peer.
    Unconfigured,
    /// The address of the peer is none.
    BadPeerAddress,
    Watch { peer: IpAddr },
}

/// Whether there is a peer to watch.
pub open spec fn gate_of(ha: GatewayHaRuntimeConfig) -> BfdGate {
    if !ha.enabled || ha.failover != FailoverMode::BfdAuto {
        BfdGate::Disabled
    } else if ha.peers@.len() == 0 {
        BfdGate::Unconfigured
    } else {
        match ip_value(ha.peers@[0].underlay_ip@) {
            Some(peer) => BfdGate::Watch { peer },
            None => BfdGate::BadPeerAddress,
        }
    }
}

/// Whether there is a peer to watch.
pub fn bfd_gate(ha: &GatewayHaRuntimeConfig) -> (gate: BfdGate)
    ensures
        gate == gate_of(*ha),
{
    if !ha.enabled || ha.failover != FailoverMode::BfdAuto {
        return BfdGate::Disabled;
    }
    if ha.peers.len() == 0 {
        return BfdGate::Unconfigured;
    }
    let chars = chars_of(ha.peers[0].underlay_ip.as_str());
    match parse_ip(chars.as_slice()) {
        Some(peer) => BfdGate::Watch { peer },
        None => BfdGate::BadPeerAddress,
    }
}

/// What can go wrong with watching the peer.
#[derive(Clone, Debug)]
pub enum BfdFault {
    /// The configuration of the pair could not be read.
    Config { error: String },
    /// The address of the peer is none.
    PeerAddress { address: String },
    /// The socket could not be opened.
    Bind { bind: String, error: String },
    /// There is no token to tag packets with.
    TokenMissing,
    /// The token could not be read.
    Token { error: String },
    /// A packet could not be sent.
    Send { error: String },
    /// Receiving failed, other than by waiting too long.
    Receive { error: String },
}

impl BfdFault {
    /// The text of a fault.
    pub open spec fn message(self) -> Seq<char> {
        match self {
            BfdFault::Config { error } => "loading HA config: "@ + error@,
            BfdFault::PeerAddress { address } => "invalid BFD peer address "@ + address@,
            BfdFault::Bind { bind, error } => "binding "@ + bind@ + ": "@ + error@,
            BfdFault::TokenMissing => "BFD peer token is unavailable"@,
            BfdFault::Token { error } => "loading BFD peer token: "@ + error@,
            BfdFault::Send { error } => "sending BFD packet: "@ + error@,
            BfdFault::Receive { error } => "receiving BFD packet: "@ + error@,
        }
    }

    /// The text of a fault.
    pub fn text(&self) -> (text: String)
        ensures
            text@ == self.message(),
    {
        match self {
            BfdFault::Config { error } => after("loading HA config: ", error.as_str()),
            BfdFault::PeerAddress { address } => after(
                "invalid BFD peer address ",
                address.as_str(),
            ),
            BfdFault::Bind { bind, error } => {
                let mut text = after("binding ", bind.as_str());
                text.append(": ");
                text.append(error.as_str());
                text
            },
            BfdFault::TokenMissing => String::from_str("BFD peer token is unavailable"),
            BfdFault::Token { error } => after("loading BFD peer token: ", error.as_str()),
            BfdFault::Send { error } => after("sending BFD packet: ", error.as_str()),
            BfdFault::Receive { error } => after("receiving BFD packet: ", error.as_str()),
        }
    }
}

fn after(start: &str, rest: &str) -> (text: String)
    ensures
        text@ == start@ + rest@,
{
    let mut text = String::from_str(start);
    text.append(rest);
    text
}

/// How far watching a peer is.
#[derive(Clone, Copy, Debug, PartialEq, Eq, Structural)]
pub enum BfdPhase {
    /// The socket is open and nothing was heard yet.
    Started,
    /// A packet, or its absence, gave a state to show.
    Watching { shown: Shown },
    /// Watching is over.
    Stopped,
}

impl BfdPhase {
    /// The state that is noted.
    pub open spec fn state(self) -> Seq<char> {
        match self {
            BfdPhase::Started => "down"@,
            BfdPhase::Watching { shown } => shown.name(),
            BfdPhase::Stopped => "stopped"@,
        }
    }
}

/// The status once it is known whether there is a peer to watch. Where there is one,
/// nothing is noted yet.
pub open spec fn gate_status(
    status: StatusView,
    ha: GatewayHaRuntimeConfig,
    underlay_ip: IpAddr,
) -> StatusView {
    match gate_of(ha) {
        BfdGate::Disabled => status.in_state("disabled"@, None, Some(ip_text(underlay_ip))),
        BfdGate::Unconfigured => status.in_state("unconfigured"@, None, Some(ip_text(underlay_ip))),
        BfdGate::BadPeerAddress => status.in_error(
            "invalid BFD peer address "@ + ha.peers@[0].underlay_ip@,
        ),
        BfdGate::Watch { .. } => status,
    }
}

impl BfdStatus {
    /// Notes whether there is a peer to watch.
    pub fn note_gate(&mut self, ha: &GatewayHaRuntimeConfig, underlay_ip: IpAddr) -> (gate: BfdGate)
        ensures
            gate == gate_of(*ha),
            final(self)@ == gate_status(old(self)@, *ha, underlay_ip),
    {
        let gate = bfd_gate(ha);
        match gate {
            BfdGate::Disabled => self.set_state("disabled", None, Some(format_ip(underlay_ip))),
            BfdGate::Unconfigured => self.set_state(
                "unconfigured",
                None,
                Some(format_ip(underlay_ip)),
            ),
            BfdGate::BadPeerAddress => self.note_fault(
                &BfdFault::PeerAddress { address: ha.peers[0].underlay_ip.clone() },
            ),
            BfdGate::Watch { .. } => {},
        }
        gate
    }

    /// Notes that something went wrong.
    pub fn note_fault(&mut self, fault: &BfdFault)
        ensures
            final(self)@ == old(self)@.in_error(fault.message()),
    {
        self.set_error(fault.text());
    }

    /// Notes how far watching the peer is.
    pub fn note_phase(&mut self, phase: BfdPhase, peer: IpAddr, underlay_ip: IpAddr)
        ensures
            final(self)@ == old(self)@.in_state(
                phase.state(),
                Some(ip_text(peer)),
                Some(ip_text(underlay_ip)),
            ),
    {
        let state = match phase {
            BfdPhase::Started => "down",
            BfdPhase::Watching { shown } => shown.as_str(),
            BfdPhase::Stopped => "stopped",
        };
        self.set_state(state, Some(format_ip(peer)), Some(format_ip(underlay_ip)));
    }

    /// Notes what a packet, or its absence, comes to.
    pub fn note_effect(&mut self, effect: &BfdEffect, peer: IpAddr, underlay_ip: IpAddr)
        ensures
            final(self)@ == effect_status(old(self)@, *effect, peer, underlay_ip),
    {
        if let Some(shown) = effect.shown {
            self.note_phase(BfdPhase::Watching { shown }, peer, underlay_ip);
        }
    }
}

/// The status once a packet, or its absence, came to something.
pub open spec fn effect_status(
    status: StatusView,
    effect: BfdEffect,
    peer: IpAddr,
    underlay_ip: IpAddr,
) -> StatusView {
    match effect.shown {
        Some(shown) => status.in_state(
            shown.name(),
            Some(ip_text(peer)),
            Some(ip_text(underlay_ip)),
        ),
        None => status,
    }
}

/// Whether there is a token to tag packets with: an empty one is none.
pub fn session_token(stored: &Option<String>) -> (token: Option<String>)
    ensures
        opt_text(token) == (match *stored {
            Some(text) if text@.len() > 0 => Some(text@),
            _ => None,
        }),
{
    proof {
        reveal_strlit("");
        if let Some(text) = stored {
            assert(text@.len() == 0 ==> text@ =~= ""@);
        }
    }
    match stored {
        Some(text) => if same_text(text.as_str(), "") {
            None
        } else {
            Some(text.clone())
        },
        None => None,
    }
}

/// Where packets are sent from and taken.
pub fn bind_text(bfd: &BfdConfig) -> (bind: String)
    ensures
        bind@ == bfd.bind_addr@ + ":"@ + decimal(bfd.port as nat),
{
    let mut bind = bfd.bind_addr.clone();
    bind.append(":");
    push_decimal(&mut bind, bfd.port as u64);
    bind
}

/// How often a packet is sent, in milliseconds.
pub open spec fn interval_of(bfd: BfdConfig) -> u64 {
    if bfd.interval_ms < 50 {
        50
    } else {
        bfd.interval_ms
    }
}

/// How often a packet is sent, in microseconds as far as a packet can say.
pub open spec fn interval_us_of(bfd: BfdConfig) -> u32 {
    if interval_of(bfd) * 1000 <= u32::MAX {
        (interval_of(bfd) * 1000) as u32
    } else {
        u32::MAX
    }
}

/// How many packets may be missing.
pub open spec fn multiplier_of(bfd: BfdConfig) -> u32 {
    if bfd.detect_multiplier < 1 {
        1
    } else {
        bfd.detect_multiplier
    }
}

/// How many packets may be missing, as far as a packet can say.
pub open spec fn detect_mult_of(bfd: BfdConfig) -> u8 {
    if multiplier_of(bfd) <= u8::MAX {
        multiplier_of(bfd) as u8
    } else {
        u8::MAX
    }
}

/// After how long without a packet the peer counts as down, in milliseconds.
pub open spec fn detection_of(bfd: BfdConfig) -> u64 {
    if interval_of(bfd) * multiplier_of(bfd) <= u64::MAX {
        (interval_of(bfd) * multiplier_of(bfd)) as u64
    } else {
        u64::MAX
    }
}

/// How often a packet is sent, in milliseconds.
pub fn interval_ms(bfd: &BfdConfig) -> (ms: u64)
    ensures
        ms == interval_of(*bfd),
        ms >= 50,
{
    if bfd.interval_ms < 50 {
        50
    } else {
        bfd.interval_ms
    }
}

/// The number that this side of the session goes by: the IPv4 address, or the
/// groups of the IPv6 address mixed.
pub open spec fn discriminator_of(ip: IpAddr) -> u32 {
    match ip {
        IpAddr::V4(v4) => v4,
        IpAddr::V6(v6) => mixed(groups_of(v6)),
    }
}

/// Groups mixed into one number.
pub open spec fn mixed(groups: Seq<u16>) -> u32
    decreases groups.len(),
{
    if groups.len() == 0 {
        0
    } else {
        let hash = mixed(groups.drop_last());
        ((hash << 5u32) | (hash >> 27u32)) ^ (groups.last() as u32)
    }
}

fn group(ip: u128, i: usize) -> (g: u16)
    requires
        i < 8,
    ensures
        g == ipv6_group(ip, i as int),
{
    if i == 0 {
        (ip / 0x1_0000_0000_0000_0000_0000_0000_0000) as u16
    } else if i == 1 {
        (ip / 0x1_0000_0000_0000_0000_0000_0000 % 0x1_0000) as u16
    } else if i == 2 {
        (ip / 0x1_0000_0000_0000_0000_0000 % 0x1_0000) as u16
    } else if i == 3 {
        (ip / 0x1_0000_0000_0000_0000 % 0x1_0000) as u16
    } else if i == 4 {
        (ip / 0x1_0000_0000_0000 % 0x1_0000) as u16
    } else if i == 5 {
        (ip / 0x1_0000_0000 % 0x1_0000) as u16
    } else if i == 6 {
        (ip / 0x1_0000 % 0x1_0000) as u16
    } else {
        (ip % 0x1_0000) as u16
    }
}

/// The number that this side of the session goes by.
pub fn discriminator(ip: IpAddr) -> (n: u32)
    ensures
        n == discriminator_of(ip),
{
    match ip {
        IpAddr::V4(v4) => v4,
        IpAddr::V6(v6) => {
            let ghost groups = groups_of(v6);
            let mut hash: u32 = 0;
            let mut i: usize = 0;
            while i < 8
                invariant
                    i <= 8,
                    groups == groups_of(v6),
                    groups.len() == 8,
                    hash == mixed(groups.take(i as int)),
                decreases 8 - i,
            {
                assert(groups.take(i + 1).drop_last() =~= groups.take(i as int));
                assert(groups.take(i + 1).last() == ipv6_group(v6, i as int));
                let part: u16 = group(v6, i);
                hash = ((hash << 5u32) | (hash >> 27u32)) ^ (part as u32);
                i += 1;
            }
            assert(groups.take(8) =~= groups);
            hash
        },
    }
}

// ---------------------------------------------------------------------------
// The engine
// ---------------------------------------------------------------------------

/// The engine. Times are milliseconds of a clock that never goes back.
pub struct BfdEngine {
    session: wren_bfd::Session,
    peer: IpAddr,
    token: String,
    interval_ms: u64,
    detection_ms: u64,
    last_rx_ms: Option<u64>,
    last_tx_ms: u64,
    lead_ms: u64,
    was_up: bool,
}

/// The engine, as plain values.
pub struct EngineView {
    pub session: SessionModel,
    pub peer: IpAddr,
    pub token: Seq<char>,
    pub interval_ms: u64,
    /// After how long without a packet the peer counts as down.
    pub detection_ms: u64,
    /// When the peer was last heard.
    pub last_rx_ms: Option<u64>,
    /// When the last packet was sent, or the engine began.
    pub last_tx_ms: u64,
    /// By how much the next packet is due earlier than an interval after that.
    pub lead_ms: u64,
    pub was_up: bool,
}

impl View for BfdEngine {
    type V = EngineView;

    closed spec fn view(&self) -> EngineView {
        EngineView {
            session: session_model(self.session),
            peer: self.peer,
            token: self.token@,
            interval_ms: self.interval_ms,
            detection_ms: self.detection_ms,
            last_rx_ms: self.last_rx_ms,
            last_tx_ms: self.last_tx_ms,
            lead_ms: self.lead_ms,
            was_up: self.was_up,
        }
    }
}

/// By how much the first packet is due earlier than an interval after the beginning: it
/// is sent at once where the interval is no longer.
pub const FIRST_LEAD_MS: u64 = 1_000;

/// What an event comes to.
#[derive(Clone, Copy, Debug, PartialEq, Eq, Structural)]
pub struct BfdEffect {
    /// The state to show: `up`, `negotiating` or `down`.
    pub shown: Option<Shown>,
    /// The change of state to publish.
    pub change: Option<BfdTransition>,
    /// Whether an election is asked for, and whether the peer was up.
    pub election: Option<bool>,
}

/// A state to show.
#[derive(Clone, Copy, Debug, PartialEq, Eq, Structural)]
pub enum Shown {
    Up,
    Negotiating,
    Down,
}

impl Shown {
    /// The name of the state.
    pub open spec fn name(self) -> Seq<char> {
        match self {
            Shown::Up => "up"@,
            Shown::Negotiating => "negotiating"@,
            Shown::Down => "down"@,
        }
    }

    /// The name of the state.
    pub fn as_str(self) -> (name: &'static str)
        ensures
            name@ == self.name(),
    {
        match self {
            Shown::Up => "up",
            Shown::Negotiating => "negotiating",
            Shown::Down => "down",
        }
    }
}

/// Nothing to do.
pub open spec fn quiet() -> BfdEffect {
    BfdEffect { shown: None, change: None, election: None }
}

/// What a packet of the peer comes to. An election is asked for only where the
/// state changes, not with every packet.
pub open spec fn packet_effect(before: BfdState, after: BfdState) -> BfdEffect {
    BfdEffect {
        shown: Some(
            if after == BfdState::Up {
                Shown::Up
            } else {
                Shown::Negotiating
            },
        ),
        change: if before == after {
            None
        } else {
            Some(BfdTransition { from: before, to: after })
        },
        election: if before == after {
            None
        } else {
            Some(after == BfdState::Up)
        },
    }
}

/// A session that was not heard of yet.
pub open spec fn started(
    peer: IpAddr,
    underlay_ip: IpAddr,
    token: Seq<char>,
    bfd: BfdConfig,
    now_ms: u64,
) -> EngineView {
    EngineView {
        session: begun(discriminator_of(underlay_ip), interval_us_of(bfd), detect_mult_of(bfd)),
        peer,
        token,
        interval_ms: interval_of(bfd),
        detection_ms: detection_of(bfd),
        last_rx_ms: None,
        last_tx_ms: now_ms,
        lead_ms: FIRST_LEAD_MS,
        was_up: false,
    }
}

impl EngineView {
    /// Whether it is time to send.
    pub open spec fn sends(self, now_ms: u64) -> bool {
        now_ms + self.lead_ms >= self.last_tx_ms + self.interval_ms
    }

    /// The engine behind a packet that it sent.
    pub open spec fn after_sending(self, now_ms: u64) -> EngineView {
        EngineView {
            session: SessionModel { answer: false, ..self.session },
            last_tx_ms: now_ms,
            lead_ms: 0,
            ..self
        }
    }

    /// The engine behind a packet of the peer.
    pub open spec fn after_hearing(self, control: BfdControl, now_ms: u64) -> EngineView {
        let session = after_packet(self.session, control);
        EngineView {
            session,
            last_rx_ms: Some(now_ms),
            was_up: session.state == BfdState::Up,
            ..self
        }
    }

    /// Whether the peer was not heard of for too long.
    pub open spec fn silent(self, now_ms: u64) -> bool {
        match self.last_rx_ms {
            None => true,
            Some(ms) => now_ms > ms + self.detection_ms,
        }
    }

    /// The engine that heard nothing of the peer for too long.
    pub open spec fn after_missing(self) -> EngineView {
        EngineView { session: after_silence(self.session), was_up: false, ..self }
    }
}

/// What silence of the peer comes to. A peer that was up is down, and an election is
/// asked for.
pub open spec fn silence_effect(was_up: bool) -> BfdEffect {
    BfdEffect {
        shown: Some(Shown::Down),
        change: if was_up {
            Some(BfdTransition { from: BfdState::Up, to: BfdState::Down })
        } else {
            None
        },
        election: if was_up {
            Some(true)
        } else {
            None
        },
    }
}

impl BfdEngine {
    /// A session that was not heard of yet.
    pub fn new(
        peer: IpAddr,
        underlay_ip: IpAddr,
        token: String,
        bfd: &BfdConfig,
        now_ms: u64,
    ) -> (engine: Self)
        ensures
            engine@ == started(peer, underlay_ip, token@, *bfd, now_ms),
    {
        let interval: u64 = interval_ms(bfd);
        let interval_us: u32 = if interval <= 4_294_967 {
            (interval * 1000) as u32
        } else {
            u32::MAX
        };
        let multiplier: u32 = if bfd.detect_multiplier < 1 {
            1
        } else {
            bfd.detect_multiplier
        };
        let detect_mult: u8 = if multiplier <= 255 {
            multiplier as u8
        } else {
            u8::MAX
        };
        let detection_ms: u64 = match interval.checked_mul(multiplier as u64) {
            Some(ms) => ms,
            None => u64::MAX,
        };
        BfdEngine {
            session: new_session(discriminator(underlay_ip), interval_us, detect_mult),
            peer,
            token,
            interval_ms: interval,
            detection_ms,
            last_rx_ms: None,
            last_tx_ms: now_ms,
            lead_ms: FIRST_LEAD_MS,
            was_up: false,
        }
    }

    /// The packet to send now, if it is time.
    pub fn on_tick(&mut self, now_ms: u64) -> (packet: Option<Vec<u8>>)
        ensures
            match packet {
                Some(packet) => {
                    &&& old(self)@.sends(now_ms)
                    &&& packet@ == tagged(next_control(old(self)@.session), old(self)@.token)
                    &&& final(self)@ == old(self)@.after_sending(now_ms)
                },
                None => !old(self)@.sends(now_ms) && final(self)@ == old(self)@,
            },
    {
        if (now_ms as u128) + (self.lead_ms as u128) < (self.last_tx_ms as u128) + (
        self.interval_ms as u128) {
            return None;
        }
        let control = build_control(&mut self.session);
        self.last_tx_ms = now_ms;
        self.lead_ms = 0;
        Some(authenticated_packet(&control, self.token.as_str()))
    }

    /// Takes a datagram. One from another address, or one that is no packet of the
    /// session, comes to nothing.
    pub fn on_datagram(&mut self, source: IpAddr, bytes: &[u8], now_ms: u64) -> (effect: BfdEffect)
        ensures
            match checked(bytes@, old(self)@.token) {
                Some(control) if source == old(self)@.peer => {
                    &&& final(self)@ == old(self)@.after_hearing(control, now_ms)
                    &&& effect == packet_effect(
                        old(self)@.session.state,
                        final(self)@.session.state,
                    )
                },
                _ => final(self)@ == old(self)@ && effect == quiet(),
            },
    {
        if source != self.peer {
            return BfdEffect { shown: None, change: None, election: None };
        }
        match parse(bytes, self.token.as_str()) {
            None => BfdEffect { shown: None, change: None, election: None },
            Some(control) => {
                let before = current_state(&self.session);
                let changed = hear(&mut self.session, &control);
                let after = current_state(&self.session);
                self.last_rx_ms = Some(now_ms);
                self.was_up = after == BfdState::Up;
                let shown = if self.was_up {
                    Shown::Up
                } else {
                    Shown::Negotiating
                };
                if changed {
                    BfdEffect {
                        shown: Some(shown),
                        change: Some(BfdTransition { from: before, to: after }),
                        election: Some(self.was_up),
                    }
                } else {
                    BfdEffect { shown: Some(shown), change: None, election: None }
                }
            },
        }
    }

    /// Looks whether the peer was heard of in time.
    pub fn on_check(&mut self, now_ms: u64) -> (effect: BfdEffect)
        ensures
            old(self)@.silent(now_ms) ==> final(self)@ == old(self)@.after_missing() && effect
                == silence_effect(old(self)@.was_up),
            !old(self)@.silent(now_ms) ==> final(self)@ == old(self)@ && effect == quiet(),
    {
        let silent = match self.last_rx_ms {
            None => true,
            Some(ms) => now_ms > ms && now_ms - ms > self.detection_ms,
        };
        if !silent {
            return BfdEffect { shown: None, change: None, election: None };
        }
        let peer_was_up = self.was_up;
        self.was_up = false;
        time_out(&mut self.session);
        if peer_was_up {
            BfdEffect {
                shown: Some(Shown::Down),
                change: Some(BfdTransition { from: BfdState::Up, to: BfdState::Down }),
                election: Some(true),
            }
        } else {
            BfdEffect { shown: Some(Shown::Down), change: None, election: None }
        }
    }
}

// ---------------------------------------------------------------------------
// Events
// ---------------------------------------------------------------------------

/// How much a change of state matters.
#[derive(Clone, Copy, Debug, PartialEq, Eq, Structural)]
pub enum Severity {
    Info,
    Warning,
    Critical,
}

/// A change of state to publish.
#[derive(Clone, Debug)]
pub struct BfdEvent {
    pub severity: Severity,
    pub text: String,
}

/// The text of a change of state.
pub open spec fn change_text(peer: Seq<char>, from: Seq<char>, to: Seq<char>) -> Seq<char> {
    "BFD peer "@ + peer + " changed from "@ + from + " to "@ + to + "."@
}

/// How much a change to a state matters.
pub open spec fn change_severity(to: Seq<char>) -> Severity {
    if lower(to) == "up"@ {
        Severity::Info
    } else if lower(to) == "down"@ {
        Severity::Warning
    } else {
        Severity::Info
    }
}

/// The event of a change of state; staying in a state is none.
pub fn bfd_transition_event(peer: &str, from: &str, to: &str) -> (event: Option<BfdEvent>)
    ensures
        match event {
            None => from@ == to@,
            Some(event) => {
                &&& from@ != to@
                &&& event.text@ == change_text(peer@, from@, to@)
                &&& event.severity == change_severity(to@)
            },
        },
{
    if same_text(from, to) {
        return None;
    }
    let small = lower_text(to);
    let severity = if same_text(small.as_str(), "up") {
        Severity::Info
    } else if same_text(small.as_str(), "down") {
        Severity::Warning
    } else {
        Severity::Info
    };
    let mut text = String::from_str("BFD peer ");
    text.append(peer);
    text.append(" changed from ");
    text.append(from);
    text.append(" to ");
    text.append(to);
    text.append(".");
    Some(BfdEvent { severity, text })
}

/// The event of what a packet came to: the states go by their names.
pub fn packet_event(peer: &str, effect: &BfdEffect) -> (event: Option<BfdEvent>)
    ensures
        match (event, effect.change) {
            (Some(event), Some(change)) => {
                &&& change.from.name() != change.to.name()
                &&& event.text@ == change_text(peer@, change.from.name(), change.to.name())
                &&& event.severity == change_severity(change.to.name())
            },
            (None, Some(change)) => change.from.name() == change.to.name(),
            (None, None) => true,
            (Some(_), None) => false,
        },
{
    match effect.change {
        Some(change) => bfd_transition_event(peer, change.from.label(), change.to.label()),
        None => None,
    }
}

/// The event of silence: a peer that was up is down.
pub fn silence_event(peer: &str, effect: &BfdEffect) -> (event: Option<BfdEvent>)
    ensures
        match event {
            Some(event) => {
                &&& effect.change is Some
                &&& event.text@ == change_text(peer@, "up"@, "down"@)
                &&& event.severity == Severity::Warning
            },
            None => effect.change is None,
        },
{
    proof {
        reveal_strlit("up");
        reveal_strlit("down");
        assert("up"@.len() != "down"@.len());
        assert(lower("down"@) =~= "down"@);
    }
    match effect.change {
        Some(_) => bfd_transition_event(peer, "up", "down"),
        None => None,
    }
}

// ---------------------------------------------------------------------------
// Laws
// ---------------------------------------------------------------------------

/// Only a peer that was up is told to be down when it falls silent; the status shows it as
/// down either way, and no error remains.
pub proof fn law_silence_is_shown(status: StatusView, was_up: bool, peer: IpAddr, underlay_ip: IpAddr)
    ensures
        ({
            let effect = silence_effect(was_up);
            let shown = effect_status(status, effect, peer, underlay_ip);
            &&& effect.change is Some <==> was_up
            &&& shown.state == "down"@
            &&& shown.last_error is None
            &&& shown.last_rx_ms == status.last_rx_ms
        }),
{
    reveal_strlit("up");
    reveal_strlit("down");
    assert("up"@.len() != "down"@.len());
}

/// The first packet is sent at once where the interval is a second or shorter, whatever
/// the clock says; after that, packets are an interval apart.
pub proof fn law_first_packet_is_prompt(
    peer: IpAddr,
    underlay_ip: IpAddr,
    token: Seq<char>,
    bfd: BfdConfig,
    began_ms: u64,
    now_ms: u64,
)
    requires
        began_ms <= now_ms,
    ensures
        ({
            let engine = started(peer, underlay_ip, token, bfd, began_ms);
            &&& interval_of(bfd) <= 1_000 ==> engine.sends(began_ms)
            &&& engine.after_sending(began_ms).sends(now_ms) <==> now_ms - began_ms
                >= interval_of(bfd)
        }),
{
}

/// Packets that leave the state as it is ask for no election.
pub proof fn law_heartbeats_ask_for_nothing(state: BfdState)
    ensures
        packet_effect(state, state).election is None,
        packet_effect(state, state).change is None,
{
}

/// A session that hears nothing but packets of another that is new comes up with it: each
/// of the three packets between them is one that a receiver takes.
pub proof fn law_handshake_comes_up(
    local: u32,
    remote: u32,
    local_us: u32,
    remote_us: u32,
    local_mult: u8,
    remote_mult: u8,
)
    requires
        local != 0,
        remote != 0,
        local_mult != 0,
        remote_mult != 0,
    ensures
        ({
            let near = begun(local, local_us, local_mult);
            let far = begun(remote, remote_us, remote_mult);
            let first = next_control(far);
            let rising = after_packet(near, first);
            let second = next_control(rising);
            let up = after_packet(far, second);
            let third = next_control(up);
            let done = after_packet(rising, third);
            &&& acceptable(first) && acceptable(second) && acceptable(third)
            &&& rising.state == BfdState::Init
            &&& up.state == BfdState::Up
            &&& done.state == BfdState::Up
            &&& up.peer_discr == local
            &&& done.peer_discr == remote
        }),
{
}

/// A session that the peer took down, or that heard nothing for too long, forgets the
/// peer and says why.
pub proof fn law_fallen_session_forgets_peer(model: SessionModel, heard: BfdControl)
    requires
        model.state == BfdState::Up,
    ensures
        heard.state == BfdState::Down || heard.state == BfdState::AdminDown ==> ({
            let fallen = after_packet(model, heard);
            fallen.state == BfdState::Down && fallen.peer_discr == 0 && next_control(fallen).diag
                == DIAG_SIGNALED
        }),
        after_silence(model).state == BfdState::Down,
        after_silence(model).peer_discr == 0,
        next_control(after_silence(model)).diag == DIAG_EXPIRED,
        after_silence(after_silence(model)) == after_silence(model),
{
}

/// A peer counts as silent once nothing came of it for the interval times the multiplier,
/// no sooner and no later; the interval is 50 milliseconds at least and the multiplier one.
/// A peer that was never heard of is silent.
pub proof fn law_silence_is_measured(
    peer: IpAddr,
    underlay_ip: IpAddr,
    token: Seq<char>,
    bfd: BfdConfig,
    began_ms: u64,
    heard: BfdControl,
    heard_ms: u64,
    now_ms: u64,
    interval: int,
    multiplier: int,
)
    requires
        interval == if bfd.interval_ms < 50 {
            50
        } else {
            bfd.interval_ms as int
        },
        multiplier == if bfd.detect_multiplier < 1 {
            1
        } else {
            bfd.detect_multiplier as int
        },
        interval * multiplier <= u64::MAX,
    ensures
        ({
            let engine = started(peer, underlay_ip, token, bfd, began_ms);
            &&& engine.silent(now_ms)
            &&& engine.after_hearing(heard, heard_ms).silent(now_ms) <==> now_ms > heard_ms
                + interval * multiplier
            &&& engine.after_hearing(heard, heard_ms).after_sending(now_ms).silent(now_ms)
                <==> now_ms > heard_ms + interval * multiplier
        }),
{
}

/// A session starts down, with the address of this side as its number, and offers the
/// interval and the multiplier that are configured, as far as a packet can say.
pub proof fn law_session_starts_as_configured(
    peer: IpAddr,
    underlay: u32,
    token: Seq<char>,
    bfd: BfdConfig,
    now_ms: u64,
)
    ensures
        ({
            let engine = started(peer, IpAddr::V4(underlay), token, bfd, now_ms);
            let session = engine.session;
            &&& engine.peer == peer
            &&& engine.token == token
            &&& !engine.was_up
            &&& session.state == BfdState::Down
            &&& session.local_discr == underlay
            &&& session.peer_discr == 0
            &&& 50 <= bfd.interval_ms <= 4_294_967 ==> session.desired_min_tx_us
                == bfd.interval_ms * 1000 && session.required_min_rx_us == bfd.interval_ms * 1000
            &&& bfd.interval_ms < 50 ==> session.desired_min_tx_us == 50_000
            &&& bfd.interval_ms > 4_294_967 ==> session.desired_min_tx_us == 0xffff_ffff
            &&& 1 <= bfd.detect_multiplier <= 255 ==> session.detect_mult == bfd.detect_multiplier
            &&& bfd.detect_multiplier == 0 ==> session.detect_mult == 1
            &&& bfd.detect_multiplier > 255 ==> session.detect_mult == 255
        }),
{
}

/// A packet is shown as up if and only if the session is up behind it. A change of state is
/// told with the states before and behind it, and asks for an election that knows whether
/// the peer is up. Silence is shown as down; it is told, and asks for an election, if and
/// only if the peer was up.
pub proof fn law_changes_are_told(before: BfdState, after: BfdState, was_up: bool)
    ensures
        ({
            let heard = packet_effect(before, after);
            &&& after == BfdState::Up ==> heard.shown == Some(Shown::Up)
            &&& after != BfdState::Up ==> heard.shown == Some(Shown::Negotiating)
            &&& before != after ==> (heard.change matches Some(change) && change.from == before
                && change.to == after)
            &&& before != after && after == BfdState::Up ==> heard.election == Some(true)
            &&& before != after && after != BfdState::Up ==> heard.election == Some(false)
            &&& before == after ==> heard.change is None && heard.election is None
        }),
        ({
            let missed = silence_effect(was_up);
            &&& missed.shown == Some(Shown::Down)
            &&& was_up ==> missed.election == Some(true) && (missed.change matches Some(change)
                && change.from == BfdState::Up && change.to == BfdState::Down)
            &&& !was_up ==> missed.election is None && missed.change is None
        }),
{
}

/// Hearing of the peer notes when, and whether it is up; missing it takes the session down
/// and keeps the rest; sending leaves the state as it is.
pub proof fn law_engine_keeps_the_rest(
    engine: EngineView,
    heard: BfdControl,
    now_ms: u64,
)
    ensures
        engine.after_hearing(heard, now_ms).last_rx_ms == Some(now_ms),
        engine.after_hearing(heard, now_ms).was_up <==> engine.after_hearing(
            heard,
            now_ms,
        ).session.state == BfdState::Up,
        engine.after_hearing(heard, now_ms).last_tx_ms == engine.last_tx_ms,
        engine.after_hearing(heard, now_ms).session.state != engine.session.state
            || engine.after_hearing(heard, now_ms).session.peer_discr == heard.my_discr,
        !engine.after_missing().was_up,
        engine.after_missing().session.state == BfdState::Down || engine.session.state
            == BfdState::AdminDown,
        engine.after_missing().last_rx_ms == engine.last_rx_ms,
        engine.after_sending(now_ms).session.state == engine.session.state,
        engine.after_sending(now_ms).last_tx_ms == now_ms,
        engine.after_sending(now_ms).last_rx_ms == engine.last_rx_ms,
        !engine.after_sending(now_ms).session.answer,
{
}

/// What a status says of a peer that is watched, and why none is: by these words.
pub proof fn law_statuses_are_worded(
    status: StatusView,
    ha: GatewayHaRuntimeConfig,
    underlay_ip: IpAddr,
    effect: BfdEffect,
    peer: IpAddr,
)
    ensures
        ({
            let noted = gate_status(status, ha, underlay_ip);
            &&& !ha.enabled || ha.failover != FailoverMode::BfdAuto ==> noted.state == "disabled"@
                && noted.last_error is None && noted.peer_ip is None && noted.source_ip == Some(
                ip_text(underlay_ip),
            )
            &&& ha.enabled && ha.failover == FailoverMode::BfdAuto && ha.peers@.len() == 0
                ==> noted.state == "unconfigured"@ && noted.last_error is None && noted.source_ip
                == Some(ip_text(underlay_ip))
            &&& ha.enabled && ha.failover == FailoverMode::BfdAuto && ha.peers@.len() > 0
                && ip_value(ha.peers@[0].underlay_ip@) is None ==> noted.state == "error"@
                && noted.last_error == Some(
                "invalid BFD peer address "@ + ha.peers@[0].underlay_ip@,
            )
        }),
        ({
            let noted = effect_status(status, effect, peer, underlay_ip);
            &&& effect.shown == Some(Shown::Up) ==> noted.state == "up"@ && noted.last_rx_ms
                == Some(0u128)
            &&& effect.shown == Some(Shown::Negotiating) ==> noted.state == "negotiating"@
            &&& effect.shown == Some(Shown::Down) ==> noted.state == "down"@
            &&& effect.shown is Some ==> noted.peer_ip == Some(ip_text(peer)) && noted.source_ip
                == Some(ip_text(underlay_ip)) && noted.last_error is None
            &&& effect.shown is None ==> noted == status
        }),
        BfdPhase::Started.state() == "down"@,
        BfdPhase::Stopped.state() == "stopped"@,
{
}

/// A change of the peer is told with its name and both states. A peer that is down is worth a
/// warning; capital letters make no difference.
pub proof fn law_changes_are_worded(peer: Seq<char>, from: Seq<char>, to: Seq<char>)
    ensures
        change_text(peer, from, to) == "BFD peer "@ + peer + " changed from "@ + from + " to "@ + to
            + "."@,
        lower(to) == "down"@ ==> change_severity(to) == Severity::Warning,
        lower(to) != "down"@ ==> change_severity(to) == Severity::Info,
{
    reveal_strlit("up");
    reveal_strlit("down");
    assert("up"@.len() != "down"@.len());
}

} // verus!
