//! Packets that were sent and not yet acknowledged.

use vstd::prelude::*;

use crate::duration::Duration;
use crate::reliable_core::send::{QueuedFrame, QueuedView};
use crate::time_wheel::TimerId;
use crate::wire::PacketNumber;

verus! {

/// A packet that was sent.
#[derive(Debug)]
pub struct SentPacket {
    packet_number: PacketNumber,
    sent_at: Duration,
    encoded_len: usize,
    frame: QueuedFrame,
    retransmit_count: u32,
    timer_id: TimerId,
    generation: u32,
}

/// A [`SentPacket`], as contracts see it.
#[verifier::ext_equal]
pub struct SentView {
    pub packet_number: PacketNumber,
    pub sent_at: Duration,
    pub encoded_len: usize,
    pub frame: QueuedView,
    pub retransmit_count: u32,
    pub timer_id: TimerId,
    pub generation: u32,
}

impl View for SentPacket {
    type V = SentView;

    closed spec fn view(&self) -> SentView {
        SentView {
            packet_number: self.packet_number,
            sent_at: self.sent_at,
            encoded_len: self.encoded_len,
            frame: self.frame@,
            retransmit_count: self.retransmit_count,
            timer_id: self.timer_id,
            generation: self.generation,
        }
    }
}

impl SentPacket {
    /// The record of a packet with one frame.
    pub fn new(
        packet_number: PacketNumber,
        sent_at: Duration,
        encoded_len: usize,
        frame: QueuedFrame,
        retransmit_count: u32,
        timer_id: TimerId,
        generation: u32,
    ) -> (packet: Self)
        ensures
            packet@ == (SentView {
                packet_number,
                sent_at,
                encoded_len,
                frame: frame@,
                retransmit_count,
                timer_id,
                generation,
            }),
    {
        SentPacket {
            packet_number,
            sent_at,
            encoded_len,
            frame,
            retransmit_count,
            timer_id,
            generation,
        }
    }

    /// Tells apart the timers of one packet.
    pub fn generation(&self) -> (generation: u32)
        ensures
            generation == self@.generation,
    {
        self.generation
    }

    /// When the packet was sent.
    pub fn sent_at(&self) -> (sent_at: Duration)
        ensures
            sent_at == self@.sent_at,
    {
        self.sent_at
    }

    /// Length of the datagram.
    pub fn encoded_len(&self) -> (length: usize)
        ensures
            length == self@.encoded_len,
    {
        self.encoded_len
    }

    /// The timer that sends the packet again.
    pub fn timer_id(&self) -> (id: TimerId)
        ensures
            id == self@.timer_id,
    {
        self.timer_id
    }

    /// How often the frame had been lost before.
    pub fn retransmit_count(&self) -> (count: u32)
        ensures
            count == self@.retransmit_count,
    {
        self.retransmit_count
    }

    /// The number, the frame and how often it had been lost before.
    pub fn into_parts(self) -> (parts: (PacketNumber, QueuedFrame, u32))
        ensures
            parts.0 == self@.packet_number,
            parts.1@ == self@.frame,
            parts.2 == self@.retransmit_count,
    {
        (self.packet_number, self.frame, self.retransmit_count)
    }
}

} // verus!
