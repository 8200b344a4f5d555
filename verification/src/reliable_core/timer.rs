//! What a timer of a connection is for.

use vstd::prelude::*;

use crate::wire::PacketNumber;

verus! {

/// What to do when a timer fires.
#[derive(Debug, Clone, Copy, PartialEq, Eq, Structural)]
pub enum TimerEvent {
    HandshakeTimeout,
    Retransmit { packet_number: PacketNumber, generation: u32 },
    AckDelay,
    Keepalive,
    IdleTimeout,
    CloseTimeout,
}

} // verus!
