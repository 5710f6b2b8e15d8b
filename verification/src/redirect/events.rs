//! Kernel notifications. Any datagram from the kernel voids what was observed,
//! whatever it says; losing one is an error.
use crate::redirect::error::RedirectError;
use vstd::prelude::*;

verus! {

/// Data can be read.
pub const POLL_IN: i16 = 1;

/// The descriptor failed, hung up or is not open.
pub const POLL_LOST: i16 = 8 | 16 | 32;

/// What a poll of the notification sockets calls for.
#[derive(Clone, Copy, Debug, PartialEq, Eq, Structural)]
pub enum PollStep {
    /// Nothing came in.
    Quiet,
    /// Read one datagram from this socket.
    Receive(usize),
}

/// Whether a socket has lost its notifications.
pub open spec fn lost(revents: i16) -> bool {
    revents & POLL_LOST != 0
}

/// Whether a socket has a datagram.
pub open spec fn readable(revents: i16) -> bool {
    revents & POLL_IN != 0
}

/// What a poll calls for, given how many sockets are ready and their events.
pub fn poll_step(ready: u32, revents: &[i16]) -> (step: Result<PollStep, RedirectError>)
    ensures
        match step {
            Err(error) => error == RedirectError::MonitorLost && ready > 0 && exists|i: int|
                0 <= i < revents.len() && lost(#[trigger] revents@[i]),
            Ok(PollStep::Receive(at)) => ready > 0 && at < revents.len() && readable(
                revents@[at as int],
            ) && (forall|i: int| 0 <= i < revents.len() ==> !lost(#[trigger] revents@[i])) && (
            forall|i: int| 0 <= i < at ==> !readable(#[trigger] revents@[i])),
            Ok(PollStep::Quiet) => ready == 0 || ((forall|i: int|
                0 <= i < revents.len() ==> !lost(#[trigger] revents@[i])) && (forall|i: int|
                0 <= i < revents.len() ==> !readable(#[trigger] revents@[i]))),
        },
{
    if ready == 0 {
        return Ok(PollStep::Quiet);
    }
    let mut i: usize = 0;
    while i < revents.len()
        invariant
            i <= revents.len(),
            ready > 0,
            forall|j: int| 0 <= j < i ==> !lost(#[trigger] revents@[j]),
        decreases revents.len() - i,
    {
        if revents[i] & POLL_LOST != 0 {
            assert(lost(revents@[i as int]));
            return Err(RedirectError::MonitorLost);
        }
        i += 1;
    }
    let mut k: usize = 0;
    while k < revents.len()
        invariant
            k <= revents.len(),
            ready > 0,
            forall|j: int| 0 <= j < revents.len() ==> !lost(#[trigger] revents@[j]),
            forall|j: int| 0 <= j < k ==> !readable(#[trigger] revents@[j]),
        decreases revents.len() - k,
    {
        if revents[k] & POLL_IN != 0 {
            assert(readable(revents@[k as int]));
            return Ok(PollStep::Receive(k));
        }
        k += 1;
    }
    Ok(PollStep::Quiet)
}

/// Whether a datagram is a change: only the kernel's own count.
pub fn is_change(sender_port: u32) -> (change: bool)
    ensures
        change == (sender_port == 0),
{
    sender_port == 0
}

// ---------------------------------------------------------------------------
// Laws
// ---------------------------------------------------------------------------

/// A socket is read where the first bit of its events is set, and is lost where the fourth,
/// the fifth or the sixth is.
pub proof fn law_events_are_bits(revents: i16)
    ensures
        readable(revents) <==> revents & 1 != 0,
        lost(revents) <==> revents & 8 != 0 || revents & 16 != 0 || revents & 32 != 0,
{
    assert(revents & (8i16 | 16i16 | 32i16) != 0 <==> revents & 8 != 0 || revents & 16 != 0 || revents & 32
        != 0) by (bit_vector);
}

} // verus!
