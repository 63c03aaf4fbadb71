//! Decisions of the steady-state channel loop. The caller owns the blocking
//! I/O on both paths; these functions take what was read and decide what to
//! do with the shared generator, so the critical section spans exactly one
//! transform and never an I/O call.

use vstd::prelude::*;
use crate::cipher::{transform, xor_keystream};
use crate::keystream::{lcg_state_after, Lcg};

verus! {

/// What the inbound path does with one chunk read from the transport.
#[derive(Debug)]
pub enum InboundAction {
    /// The read returned no bytes: the peer disconnected and the session
    /// ends. The generator is left untouched.
    Disconnect,
    /// The chunk decrypted to these bytes, to be offered for display.
    Deliver(Vec<u8>),
}

/// One step of the inbound path: a zero-byte read means the peer
/// disconnected and ends the session without touching the generator; any
/// other chunk is decrypted, advancing the generator by its length.
pub fn inbound_step(generator: &mut Lcg, received: &Vec<u8>) -> (action: InboundAction)
    ensures
        received@.len() == 0 ==> action is Disconnect && final(generator)@ == old(generator)@,
        received@.len() > 0 ==> (action matches InboundAction::Deliver(plain) && plain@
            == xor_keystream(received@, old(generator)@) && final(generator)@ == lcg_state_after(
            old(generator)@,
            received@.len(),
        )),
{
    if received.len() == 0 {
        InboundAction::Disconnect
    } else {
        InboundAction::Deliver(transform(received, generator))
    }
}

/// One step of the outbound path: an empty input line is skipped without
/// touching the generator; any other line is encrypted for sending,
/// advancing the generator by its length.
pub fn outbound_step(generator: &mut Lcg, line: &Vec<u8>) -> (out: Option<Vec<u8>>)
    ensures
        line@.len() == 0 ==> out is None && final(generator)@ == old(generator)@,
        line@.len() > 0 ==> (out matches Some(encrypted) && encrypted@ == xor_keystream(
            line@,
            old(generator)@,
        ) && final(generator)@ == lcg_state_after(old(generator)@, line@.len())),
{
    if line.len() == 0 {
        None
    } else {
        Some(transform(line, generator))
    }
}

} // verus!
