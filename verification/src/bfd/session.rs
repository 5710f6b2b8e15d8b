//! The session with the peer.
use super::packet::{BfdControl, BfdState};
use vstd::prelude::*;

verus! {

/// `wren_bfd::Session`: one side of a session.
#[verifier::external_type_specification]
#[verifier::external_body]
pub struct ExSession(wren_bfd::Session);

/// What a session holds: its state and why it was last changed, the two sides, what it
/// was made with, and whether it owes an answer.
#[derive(Clone, Copy, Debug, PartialEq, Eq, Structural)]
pub struct SessionModel {
    pub state: BfdState,
    pub diag: u8,
    pub local_discr: u32,
    pub peer_discr: u32,
    pub desired_min_tx_us: u32,
    pub required_min_rx_us: u32,
    pub detect_mult: u8,
    pub answer: bool,
}

/// What a session holds.
pub uninterp spec fn session_model(session: wren_bfd::Session) -> SessionModel;

/// The diagnostic of a session that timed out.
pub const DIAG_EXPIRED: u8 = 1;

/// The diagnostic of a session that the peer took down.
pub const DIAG_SIGNALED: u8 = 3;

/// How often a session at least waits before it is up, in microseconds.
pub const SLOW_US: u32 = 1_000_000;

/// A change of state.
#[derive(Clone, Copy, Debug, PartialEq, Eq, Structural)]
pub struct BfdTransition {
    pub from: BfdState,
    pub to: BfdState,
}

/// The state that a session goes to from a state when the peer says its own.
pub open spec fn next_state(state: BfdState, peer: BfdState) -> BfdState {
    match (state, peer) {
        (BfdState::AdminDown, _) => BfdState::AdminDown,
        (_, BfdState::AdminDown) => BfdState::Down,
        (BfdState::Down, BfdState::Down) => BfdState::Init,
        (BfdState::Down, BfdState::Init) => BfdState::Up,
        (BfdState::Init, BfdState::Init) | (BfdState::Init, BfdState::Up) => BfdState::Up,
        (BfdState::Up, BfdState::Down) => BfdState::Down,
        _ => state,
    }
}

/// A session that was not heard of yet.
pub open spec fn begun(local_discr: u32, interval_us: u32, detect_mult: u8) -> SessionModel {
    SessionModel {
        state: BfdState::Down,
        diag: 0,
        local_discr,
        peer_discr: 0,
        desired_min_tx_us: interval_us,
        required_min_rx_us: interval_us,
        detect_mult,
        answer: false,
    }
}

/// A session after a packet of the peer. A session that goes down forgets the peer.
pub open spec fn after_packet(model: SessionModel, heard: BfdControl) -> SessionModel {
    let state = next_state(model.state, heard.state);
    let goes_down = state == BfdState::Down && model.state != BfdState::Down;
    SessionModel {
        state,
        diag: if goes_down {
            DIAG_SIGNALED
        } else if state == BfdState::Up && model.state != BfdState::Up {
            0
        } else {
            model.diag
        },
        peer_discr: if goes_down {
            0
        } else {
            heard.my_discr
        },
        answer: model.answer || heard.poll,
        ..model
    }
}

/// A session after the peer was silent for too long: one that is coming up or up goes
/// down, any other stays as it is.
pub open spec fn after_silence(model: SessionModel) -> SessionModel {
    if model.state == BfdState::Init || model.state == BfdState::Up {
        SessionModel { state: BfdState::Down, diag: DIAG_EXPIRED, peer_discr: 0, ..model }
    } else {
        model
    }
}

/// The packet that a session sends next. Until it is up it asks for no more than one
/// packet a second.
pub open spec fn next_control(model: SessionModel) -> BfdControl {
    BfdControl {
        diag: model.diag,
        state: model.state,
        poll: false,
        final_: model.answer,
        cpi: false,
        demand: false,
        detect_mult: model.detect_mult,
        my_discr: model.local_discr,
        your_discr: model.peer_discr,
        desired_min_tx: if model.state == BfdState::Up || model.desired_min_tx_us >= SLOW_US {
            model.desired_min_tx_us
        } else {
            SLOW_US
        },
        required_min_rx: model.required_min_rx_us,
        required_min_echo_rx: 0,
        auth_present: false,
    }
}

/// Calls `wren_bfd::Session::new`: a session begins in the state Down, without a peer,
/// with the discriminator and multiplier that are given, and with one interval both for
/// sending and for receiving.
#[verifier::external_body]
pub(crate) fn new_session(local_discr: u32, interval_us: u32, detect_mult: u8) -> (session:
    wren_bfd::Session)
    ensures
        session_model(session) == begun(local_discr, interval_us, detect_mult),
{
    wren_bfd::Session::new(local_discr, wren_bfd::SessionConfig { desired_min_tx_us: interval_us,
        required_min_rx_us: interval_us, detect_mult })
}

/// Calls `wren_bfd::Session::state`: the state that the session is in.
#[verifier::external_body]
pub(crate) fn current_state(session: &wren_bfd::Session) -> (state: BfdState)
    ensures
        state == session_model(*session).state,
{
    match session.state() {
        wren_bfd::State::AdminDown => BfdState::AdminDown,
        wren_bfd::State::Down => BfdState::Down,
        wren_bfd::State::Init => BfdState::Init,
        wren_bfd::State::Up => BfdState::Up,
    }
}

/// Calls `wren_bfd::Session::on_packet`: the session learns the peer's discriminator,
/// owes an answer if it is polled, and goes to the state that RFC 5880 has for its own
/// state and that of the peer. The result says whether the state changed.
#[verifier::external_body]
pub(crate) fn hear(session: &mut wren_bfd::Session, c: &BfdControl) -> (change: bool)
    ensures
        session_model(*final(session)) == after_packet(session_model(*old(session)), *c),
        change == (session_model(*final(session)).state != session_model(*old(session)).state),
{
    let state = match c.state {
        BfdState::AdminDown => wren_bfd::State::AdminDown,
        BfdState::Down => wren_bfd::State::Down,
        BfdState::Init => wren_bfd::State::Init,
        BfdState::Up => wren_bfd::State::Up,
    };
    let packet = wren_bfd::ControlPacket { diag: wren_bfd::Diag::from_code(c.diag), state,
        poll: c.poll, final_: c.final_, cpi: c.cpi, demand: c.demand, detect_mult: c.detect_mult,
        my_discr: c.my_discr, your_discr: c.your_discr, desired_min_tx: c.desired_min_tx,
        required_min_rx: c.required_min_rx, required_min_echo_rx: c.required_min_echo_rx,
        auth_present: c.auth_present };
    session.on_packet(&packet).is_some()
}

/// Calls `wren_bfd::Session::on_detect_timeout`: a session that is coming up or up goes
/// down and forgets the peer, any other stays as it is. The result says whether the
/// state changed.
#[verifier::external_body]
pub(crate) fn time_out(session: &mut wren_bfd::Session) -> (change: bool)
    ensures
        session_model(*final(session)) == after_silence(session_model(*old(session))),
        change == (session_model(*final(session)).state != session_model(*old(session)).state),
{
    session.on_detect_timeout().is_some()
}

/// Calls `wren_bfd::Session::build_control`: the packet that the session sends next.
/// An answer is sent once; nothing else of the session changes.
#[verifier::external_body]
pub(crate) fn build_control(session: &mut wren_bfd::Session) -> (control: BfdControl)
    ensures
        control == next_control(session_model(*old(session))),
        session_model(*final(session)) == (SessionModel {
            answer: false,
            ..session_model(*old(session))
        }),
{
    let p = session.build_control();
    let state = match p.state {
        wren_bfd::State::AdminDown => BfdState::AdminDown,
        wren_bfd::State::Down => BfdState::Down,
        wren_bfd::State::Init => BfdState::Init,
        wren_bfd::State::Up => BfdState::Up,
    };
    BfdControl { diag: p.diag.code(), state, poll: p.poll, final_: p.final_, cpi: p.cpi,
        demand: p.demand, detect_mult: p.detect_mult, my_discr: p.my_discr,
        your_discr: p.your_discr, desired_min_tx: p.desired_min_tx,
        required_min_rx: p.required_min_rx, required_min_echo_rx: p.required_min_echo_rx,
        auth_present: p.auth_present }
}

// ---------------------------------------------------------------------------
// Laws
// ---------------------------------------------------------------------------

/// Two sides come up over three steps: a side that is down and hears the same begins, and one
/// that hears that the other began, or is up, comes up. A side that is up goes down when the
/// other is down, and any side but one that is shut goes down when the other is shut.
pub proof fn law_sides_come_up_together(state: BfdState, peer: BfdState)
    ensures
        next_state(BfdState::Down, BfdState::Down) == BfdState::Init,
        next_state(BfdState::Down, BfdState::Init) == BfdState::Up,
        next_state(BfdState::Down, BfdState::Up) == BfdState::Down,
        next_state(BfdState::Init, BfdState::Down) == BfdState::Init,
        next_state(BfdState::Init, BfdState::Init) == BfdState::Up,
        next_state(BfdState::Init, BfdState::Up) == BfdState::Up,
        next_state(BfdState::Up, BfdState::Down) == BfdState::Down,
        next_state(BfdState::Up, BfdState::Init) == BfdState::Up,
        next_state(BfdState::Up, BfdState::Up) == BfdState::Up,
        next_state(BfdState::AdminDown, peer) == BfdState::AdminDown,
        state != BfdState::AdminDown ==> next_state(state, BfdState::AdminDown) == BfdState::Down,
{
}

/// A session learns the discriminator of the peer and owes an answer where it is polled; one
/// that the peer takes down says so and forgets the peer, one that comes up forgets why it
/// was down.
pub proof fn law_sessions_learn_from_packets(model: SessionModel, heard: BfdControl)
    ensures
        ({
            let after = after_packet(model, heard);
            &&& heard.poll ==> after.answer
            &&& !heard.poll ==> after.answer == model.answer
            &&& model.state == BfdState::Up && heard.state == BfdState::Down ==> after.state
                == BfdState::Down && after.diag == 3 && after.peer_discr == 0
            &&& model.state == BfdState::Init && heard.state == BfdState::Up ==> after.state
                == BfdState::Up && after.diag == 0 && after.peer_discr == heard.my_discr
            &&& model.state == BfdState::Up && heard.state == BfdState::Up ==> after.state
                == BfdState::Up && after.diag == model.diag && after.peer_discr == heard.my_discr
            &&& after.local_discr == model.local_discr
            &&& after.desired_min_tx_us == model.desired_min_tx_us
            &&& after.required_min_rx_us == model.required_min_rx_us
            &&& after.detect_mult == model.detect_mult
        }),
{
}

/// Silence takes a session down that is up or coming up, for the reason that it expired.
pub proof fn law_silence_takes_sessions_down(model: SessionModel)
    ensures
        model.state == BfdState::Up || model.state == BfdState::Init ==> after_silence(model).state
            == BfdState::Down && after_silence(model).diag == 1 && after_silence(model).peer_discr
            == 0,
        model.state == BfdState::Down || model.state == BfdState::AdminDown ==> after_silence(model)
            == model,
        after_silence(model).local_discr == model.local_discr,
{
}

/// A packet says the state, the reason, both discriminators and the timing of its session, and
/// answers where that is owed. A session that is not up promises at most one packet a second.
pub proof fn law_packets_say_what_sessions_hold(model: SessionModel)
    ensures
        ({
            let packet = next_control(model);
            &&& packet.state == model.state
            &&& packet.diag == model.diag
            &&& packet.my_discr == model.local_discr
            &&& packet.your_discr == model.peer_discr
            &&& packet.detect_mult == model.detect_mult
            &&& packet.required_min_rx == model.required_min_rx_us
            &&& packet.final_ == model.answer
            &&& !packet.poll
            &&& model.state == BfdState::Up ==> packet.desired_min_tx == model.desired_min_tx_us
            &&& model.state != BfdState::Up && model.desired_min_tx_us <= 1_000_000
                ==> packet.desired_min_tx == 1_000_000
            &&& model.state != BfdState::Up && model.desired_min_tx_us > 1_000_000
                ==> packet.desired_min_tx == model.desired_min_tx_us
        }),
{
}

} // verus!
