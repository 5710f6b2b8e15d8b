//! Control packets and their authentication.
use crate::bytes::{
    be_bytes, be_value, copy_bytes, law_be_round_trip, lemma_be_bytes_len, lemma_pow256, push_bytes,
};
use crate::digest::{hmac_sha256, hmac_tag, hmac_verify};
use vstd::prelude::*;
use vstd::utf8::encode_utf8;

verus! {

/// The length of a control packet without its tag.
pub const CONTROL_LEN: usize = 24;

/// The length of a control packet with its tag.
pub const PACKET_LEN: usize = 56;

/// The state of a session.
#[derive(Clone, Copy, Debug, PartialEq, Eq, Structural)]
pub enum BfdState {
    AdminDown,
    Down,
    Init,
    Up,
}

impl BfdState {
    /// The name of a state.
    pub open spec fn name(self) -> Seq<char> {
        match self {
            BfdState::AdminDown => "AdminDown"@,
            BfdState::Down => "Down"@,
            BfdState::Init => "Init"@,
            BfdState::Up => "Up"@,
        }
    }

    /// The name of a state.
    pub fn label(self) -> (label: &'static str)
        ensures
            label@ == self.name(),
    {
        match self {
            BfdState::AdminDown => "AdminDown",
            BfdState::Down => "Down",
            BfdState::Init => "Init",
            BfdState::Up => "Up",
        }
    }

    /// The number of a state on the wire.
    pub open spec fn number(self) -> nat {
        match self {
            BfdState::AdminDown => 0,
            BfdState::Down => 1,
            BfdState::Init => 2,
            BfdState::Up => 3,
        }
    }
}

/// A control packet. `diag` is the number of a diagnostic.
#[derive(Clone, Copy, Debug, PartialEq, Eq, Structural)]
pub struct BfdControl {
    pub diag: u8,
    pub state: BfdState,
    pub poll: bool,
    pub final_: bool,
    pub cpi: bool,
    pub demand: bool,
    pub detect_mult: u8,
    pub my_discr: u32,
    pub your_discr: u32,
    pub desired_min_tx: u32,
    pub required_min_rx: u32,
    pub required_min_echo_rx: u32,
    pub auth_present: bool,
}

/// A flag as a number.
pub open spec fn bit(b: bool, weight: nat) -> nat {
    if b {
        weight
    } else {
        0
    }
}

/// The second byte of a control packet: the state and the flags.
pub open spec fn flag_byte(control: BfdControl) -> nat {
    control.state.number() * 64 + bit(control.poll, 32) + bit(control.final_, 16) + bit(
        control.cpi,
        8,
    ) + bit(control.demand, 2)
}

/// The bytes of a control packet: version and diagnostic, state and flags, the
/// multiplier, the length, and five numbers.
pub open spec fn control_bytes(control: BfdControl) -> Seq<u8> {
    seq![
        (32 + control.diag % 32) as u8,
        flag_byte(control) as u8,
        control.detect_mult,
        24u8,
    ] + be_bytes(control.my_discr as nat, 4) + be_bytes(control.your_discr as nat, 4) + be_bytes(
        control.desired_min_tx as nat,
        4,
    ) + be_bytes(control.required_min_rx as nat, 4) + be_bytes(
        control.required_min_echo_rx as nat,
        4,
    )
}

/// The number of four bytes at `at`.
pub open spec fn word(bytes: Seq<u8>, at: int) -> u32 {
    be_value(bytes.subrange(at, at + 4)) as u32
}

/// The state of a number.
pub open spec fn state_of(number: int) -> BfdState {
    if number == 0 {
        BfdState::AdminDown
    } else if number == 1 {
        BfdState::Down
    } else if number == 2 {
        BfdState::Init
    } else {
        BfdState::Up
    }
}

/// The control packet that bytes hold: of version 1, for one receiver, with a
/// multiplier and a sender, and with a receiver unless the sender is down.
pub open spec fn control_of(bytes: Seq<u8>) -> Option<BfdControl> {
    let state = state_of(bytes[1] as int / 64);
    if bytes.len() < CONTROL_LEN || bytes[0] / 32 != 1 || bytes[1] % 2 != 0 || bytes[2] == 0
        || bytes[3] < CONTROL_LEN || bytes[3] > bytes.len() || word(bytes, 4) == 0 || (word(bytes, 8)
        == 0 && state != BfdState::Down && state != BfdState::AdminDown) {
        None
    } else {
        Some(
            BfdControl {
                diag: bytes[0] % 32,
                state,
                poll: bytes[1] / 32 % 2 == 1,
                final_: bytes[1] / 16 % 2 == 1,
                cpi: bytes[1] / 8 % 2 == 1,
                demand: bytes[1] / 2 % 2 == 1,
                detect_mult: bytes[2],
                my_discr: word(bytes, 4),
                your_discr: word(bytes, 8),
                desired_min_tx: word(bytes, 12),
                required_min_rx: word(bytes, 16),
                required_min_echo_rx: word(bytes, 20),
                auth_present: bytes[1] / 4 % 2 == 1,
            },
        )
    }
}

/// Calls `wren_bfd::ControlPacket::encode`: the bytes of a control packet as
/// RFC 5880 has them, with the authentication and multipoint flags clear.
#[verifier::external_body]
pub(crate) fn encode_control(c: &BfdControl) -> (bytes: [u8; 24])
    ensures
        bytes@ == control_bytes(*c),
{
    let state = match c.state {
        BfdState::AdminDown => wren_bfd::State::AdminDown,
        BfdState::Down => wren_bfd::State::Down,
        BfdState::Init => wren_bfd::State::Init,
        BfdState::Up => wren_bfd::State::Up,
    };
    let packet = wren_bfd::ControlPacket { diag: wren_bfd::Diag::from_code(c.diag), state,
        poll: c.poll, final_: c.final_, cpi: c.cpi, demand: c.demand, detect_mult: c.detect_mult,
        my_discr: c.my_discr, your_discr: c.your_discr, desired_min_tx: c.desired_min_tx,
        required_min_rx: c.required_min_rx, required_min_echo_rx: c.required_min_echo_rx,
        auth_present: c.auth_present };
    packet.encode()
}

/// Calls `wren_bfd::ControlPacket::decode`: the control packet that bytes hold, if
/// they pass the checks that RFC 5880 asks of a receiver.
#[verifier::external_body]
pub(crate) fn decode_control(bytes: &[u8]) -> (control: Option<BfdControl>)
    ensures
        control == control_of(bytes@),
{
    let p = wren_bfd::ControlPacket::decode(bytes)?;
    let state = match p.state {
        wren_bfd::State::AdminDown => BfdState::AdminDown,
        wren_bfd::State::Down => BfdState::Down,
        wren_bfd::State::Init => BfdState::Init,
        wren_bfd::State::Up => BfdState::Up,
    };
    Some(BfdControl { diag: p.diag.code(), state, poll: p.poll, final_: p.final_, cpi: p.cpi,
        demand: p.demand, detect_mult: p.detect_mult, my_discr: p.my_discr,
        your_discr: p.your_discr, desired_min_tx: p.desired_min_tx,
        required_min_rx: p.required_min_rx, required_min_echo_rx: p.required_min_echo_rx,
        auth_present: p.auth_present })
}

// ---------------------------------------------------------------------------
// Authentication
// ---------------------------------------------------------------------------

/// A control packet and its tag.
pub open spec fn tagged(control: BfdControl, token: Seq<char>) -> Seq<u8> {
    control_bytes(control) + hmac_sha256(encode_utf8(token), control_bytes(control))
}

/// The control packet of bytes whose tag is right.
pub open spec fn checked(bytes: Seq<u8>, token: Seq<char>) -> Option<BfdControl> {
    if bytes.len() < PACKET_LEN || bytes.subrange(24, 56) != hmac_sha256(
        encode_utf8(token),
        bytes.take(24),
    ) {
        None
    } else {
        control_of(bytes.take(24))
    }
}

/// What a receiver makes of a control packet: the flag for an authentication
/// section of its own is clear, and a diagnostic has five bits.
pub open spec fn received(control: BfdControl) -> BfdControl {
    BfdControl { diag: (control.diag % 32) as u8, auth_present: false, ..control }
}

/// Whether a receiver takes a control packet.
pub open spec fn acceptable(control: BfdControl) -> bool {
    &&& control.detect_mult != 0
    &&& control.my_discr != 0
    &&& control.your_discr != 0 || control.state == BfdState::Down || control.state
        == BfdState::AdminDown
}

/// Builds a control packet with its tag. A receiver with the same token takes it
/// as it was sent.
pub fn authenticated_packet(control: &BfdControl, token: &str) -> (packet: Vec<u8>)
    ensures
        packet@ == tagged(*control, token@),
        packet@.len() == PACKET_LEN,
        acceptable(*control) ==> checked(packet@, token@) == Some(received(*control)),
        !acceptable(*control) ==> checked(packet@, token@) is None,
{
    let body = encode_control(control);
    let tag = hmac_tag(token.as_bytes(), body.as_slice());
    let mut packet: Vec<u8> = Vec::new();
    push_bytes(&mut packet, body.as_slice());
    assert(packet@ =~= control_bytes(*control));
    push_bytes(&mut packet, tag.as_slice());
    proof {
        assert(packet@.take(24) =~= body@);
        assert(packet@.subrange(24, 56) =~= tag@);
        lemma_control_round_trip(*control);
    }
    packet
}

/// Reads a control packet whose tag is right.
pub fn parse(packet: &[u8], token: &str) -> (control: Option<BfdControl>)
    ensures
        control == checked(packet@, token@),
{
    if packet.len() < PACKET_LEN {
        return None;
    }
    let body = copy_bytes(packet, 0, 24);
    assert(body@ =~= packet@.take(24));
    let tag = copy_bytes(packet, 24, 56);
    if !hmac_verify(token.as_bytes(), body.as_slice(), tag.as_slice()) {
        return None;
    }
    decode_control(body.as_slice())
}

proof fn lemma_word(bytes: Seq<u8>, at: int, n: u32)
    requires
        bytes.subrange(at, at + 4) == be_bytes(n as nat, 4),
    ensures
        word(bytes, at) == n,
{
    lemma_pow256();
    law_be_round_trip(n as nat, 4);
}

proof fn lemma_control_round_trip(control: BfdControl)
    ensures
        control_bytes(control).len() == CONTROL_LEN,
        acceptable(control) ==> control_of(control_bytes(control)) == Some(received(control)),
        !acceptable(control) ==> control_of(control_bytes(control)) is None,
{
    let bytes = control_bytes(control);
    lemma_be_bytes_len(control.my_discr as nat, 4);
    lemma_be_bytes_len(control.your_discr as nat, 4);
    lemma_be_bytes_len(control.desired_min_tx as nat, 4);
    lemma_be_bytes_len(control.required_min_rx as nat, 4);
    lemma_be_bytes_len(control.required_min_echo_rx as nat, 4);
    assert(bytes.subrange(4, 8) =~= be_bytes(control.my_discr as nat, 4));
    assert(bytes.subrange(8, 12) =~= be_bytes(control.your_discr as nat, 4));
    assert(bytes.subrange(12, 16) =~= be_bytes(control.desired_min_tx as nat, 4));
    assert(bytes.subrange(16, 20) =~= be_bytes(control.required_min_rx as nat, 4));
    assert(bytes.subrange(20, 24) =~= be_bytes(control.required_min_echo_rx as nat, 4));
    lemma_word(bytes, 4, control.my_discr);
    lemma_word(bytes, 8, control.your_discr);
    lemma_word(bytes, 12, control.desired_min_tx);
    lemma_word(bytes, 16, control.required_min_rx);
    lemma_word(bytes, 20, control.required_min_echo_rx);
    assert(bytes[0] == 32 + control.diag % 32);
    assert(bytes[1] == flag_byte(control));
}

// ---------------------------------------------------------------------------
// Laws
// ---------------------------------------------------------------------------

/// A packet that is too short, or whose tag is not that of its token, is not
/// taken.
pub proof fn law_wrong_tag_is_refused(bytes: Seq<u8>, token: Seq<char>)
    requires
        bytes.len() < PACKET_LEN || bytes.subrange(24, 56) != hmac_sha256(
            encode_utf8(token),
            bytes.take(24),
        ),
    ensures
        checked(bytes, token) is None,
{
}

/// What stands behind the tag does not matter.
pub proof fn law_trailing_bytes_do_not_matter(bytes: Seq<u8>, more: Seq<u8>, token: Seq<char>)
    requires
        bytes.len() >= PACKET_LEN,
    ensures
        checked(bytes + more, token) == checked(bytes, token),
{
    assert((bytes + more).take(24) =~= bytes.take(24));
    assert((bytes + more).subrange(24, 56) =~= bytes.subrange(24, 56));
}

/// A receiver with the same token reads every field of a packet as it was sent. A packet
/// without a multiplier or a sender is never taken, nor is one without a receiver but from
/// a side that is down.
pub proof fn law_packet_reads_back(control: BfdControl, token: Seq<char>)
    requires
        control.diag < 32,
    ensures
        hmac_sha256(encode_utf8(token), control_bytes(control)).len() == 32 ==> match checked(
            tagged(control, token),
            token,
        ) {
            None => control.detect_mult == 0 || control.my_discr == 0 || (control.your_discr == 0
                && control.state != BfdState::Down && control.state != BfdState::AdminDown),
            Some(read) => {
                &&& control.detect_mult != 0 && control.my_discr != 0
                &&& control.your_discr != 0 || control.state == BfdState::Down || control.state
                    == BfdState::AdminDown
                &&& read.diag == control.diag
                &&& read.state == control.state
                &&& read.poll == control.poll
                &&& read.final_ == control.final_
                &&& read.cpi == control.cpi
                &&& read.demand == control.demand
                &&& read.detect_mult == control.detect_mult
                &&& read.my_discr == control.my_discr
                &&& read.your_discr == control.your_discr
                &&& read.desired_min_tx == control.desired_min_tx
                &&& read.required_min_rx == control.required_min_rx
                &&& read.required_min_echo_rx == control.required_min_echo_rx
                &&& !read.auth_present
            },
        },
{
    let body = control_bytes(control);
    let tag = hmac_sha256(encode_utf8(token), body);
    lemma_control_round_trip(control);
    if tag.len() == 32 {
        assert((body + tag).take(24) =~= body);
        assert((body + tag).subrange(24, 56) =~= tag);
    }
}

/// The names of the states and their numbers in a packet.
pub proof fn law_states_are_named_and_numbered()
    ensures
        BfdState::AdminDown.name() == "AdminDown"@ && BfdState::AdminDown.number() == 0,
        BfdState::Down.name() == "Down"@ && BfdState::Down.number() == 1,
        BfdState::Init.name() == "Init"@ && BfdState::Init.number() == 2,
        BfdState::Up.name() == "Up"@ && BfdState::Up.number() == 3,
{
}

/// A packet has the places that RFC 5880 gives its fields: version one and the reason, the
/// state and the flags, the multiplier, the length, both discriminators and the three
/// intervals.
pub proof fn law_packet_has_its_places(control: BfdControl)
    ensures
        ({
            let s = control_bytes(control);
            &&& s.len() == 24
            &&& s[0] == 32 + control.diag % 32
            &&& s[1] == 64 * control.state.number() + (if control.poll {
                32int
            } else {
                0
            }) + (if control.final_ {
                16int
            } else {
                0
            }) + (if control.cpi {
                8int
            } else {
                0
            }) + (if control.demand {
                2int
            } else {
                0
            })
            &&& s[2] == control.detect_mult
            &&& s[3] == 24
            &&& be_value(s.subrange(4, 8)) == control.my_discr
            &&& be_value(s.subrange(8, 12)) == control.your_discr
            &&& be_value(s.subrange(12, 16)) == control.desired_min_tx
            &&& be_value(s.subrange(16, 20)) == control.required_min_rx
            &&& be_value(s.subrange(20, 24)) == control.required_min_echo_rx
        }),
{
    lemma_pow256();
    let s = control_bytes(control);
    law_be_round_trip(control.my_discr as nat, 4);
    law_be_round_trip(control.your_discr as nat, 4);
    law_be_round_trip(control.desired_min_tx as nat, 4);
    law_be_round_trip(control.required_min_rx as nat, 4);
    law_be_round_trip(control.required_min_echo_rx as nat, 4);
    assert(s.subrange(4, 8) =~= be_bytes(control.my_discr as nat, 4));
    assert(s.subrange(8, 12) =~= be_bytes(control.your_discr as nat, 4));
    assert(s.subrange(12, 16) =~= be_bytes(control.desired_min_tx as nat, 4));
    assert(s.subrange(16, 20) =~= be_bytes(control.required_min_rx as nat, 4));
    assert(s.subrange(20, 24) =~= be_bytes(control.required_min_echo_rx as nat, 4));
}

} // verus!
