//! How much data each side may send.

use vstd::prelude::*;

use crate::reliable_core::congestion::{greater, lesser};
use crate::reliable_core::error::CoreError;
use crate::wire::StreamId;

verus! {

/// What the other side lets this one send on the connection.
#[derive(Debug, Clone, Copy, PartialEq, Eq, Structural)]
pub struct SendFlowControl {
    pub connection_max_offset: u64,
    pub connection_sent_offset: u64,
}

impl SendFlowControl {
    /// Nothing sent, up to `max_offset` allowed.
    pub fn new(max_offset: u64) -> (flow: Self)
        ensures
            flow.connection_max_offset == max_offset,
            flow.connection_sent_offset == 0,
    {
        SendFlowControl { connection_max_offset: max_offset, connection_sent_offset: 0 }
    }

    /// Raises the limit. It never sinks.
    pub fn update(&mut self, max_offset: u64)
        ensures
            *final(self) == (SendFlowControl {
                connection_max_offset: greater(
                    old(self).connection_max_offset as int,
                    max_offset as int,
                ) as u64,
                ..*old(self)
            }),
    {
        if self.connection_max_offset < max_offset {
            self.connection_max_offset = max_offset;
        }
    }

    /// Sets the limit, as the handshake does.
    pub fn set_max_offset(&mut self, max_offset: u64)
        ensures
            *final(self) == (SendFlowControl { connection_max_offset: max_offset, ..*old(self) }),
    {
        self.connection_max_offset = max_offset;
    }

    /// Whether `length` bytes may be sent. What is sent again was counted before.
    pub fn can_send(&self, length: usize, retransmission: bool) -> (allowed: bool)
        ensures
            allowed <==> retransmission || self.connection_sent_offset + length
                <= self.connection_max_offset,
    {
        if retransmission {
            return true;
        }
        match self.connection_sent_offset.checked_add(length as u64) {
            Some(end) => end <= self.connection_max_offset,
            None => false,
        }
    }

    /// Counts bytes that are sent for the first time.
    pub fn account_new_data(&mut self, length: usize)
        ensures
            *final(self) == (SendFlowControl {
                connection_sent_offset: lesser(
                    old(self).connection_sent_offset + length,
                    u64::MAX as int,
                ) as u64,
                ..*old(self)
            }),
    {
        self.connection_sent_offset = self.connection_sent_offset.saturating_add(length as u64);
    }
}

/// What this side lets the other one send.
#[derive(Debug, Clone, Copy, PartialEq, Eq, Structural)]
pub struct ReceiveFlowControl {
    pub max_offset: u64,
    pub unique_received: u64,
    pub consumed: u64,
    pub window_size: u64,
    pub advertised_offset: u64,
}

impl ReceiveFlowControl {
    /// Nothing received, `window_size` allowed.
    pub fn new(window_size: u64) -> (flow: Self)
        ensures
            flow == (ReceiveFlowControl {
                max_offset: window_size,
                unique_received: 0,
                consumed: 0,
                window_size,
                advertised_offset: window_size,
            }),
    {
        ReceiveFlowControl {
            max_offset: window_size,
            unique_received: 0,
            consumed: 0,
            window_size,
            advertised_offset: window_size,
        }
    }

    /// Refuses data that ends past the limit.
    pub fn check(&self, stream_id: Option<StreamId>, end: u64, new_bytes: usize) -> (result: Result<
        (),
        CoreError,
    >)
        ensures
            result is Ok <==> end <= self.max_offset && self.unique_received + new_bytes
                <= u64::MAX,
            result matches Err(error) ==> error == (CoreError::FlowControlViolation { stream_id }),
    {
        if end > self.max_offset {
            return Err(CoreError::FlowControlViolation { stream_id });
        }
        match self.unique_received.checked_add(new_bytes as u64) {
            Some(_) => Ok(()),
            None => Err(CoreError::FlowControlViolation { stream_id }),
        }
    }

    /// The bytes received, each counted once.
    pub fn unique_received(&self) -> (bytes: u64)
        ensures
            bytes == self.unique_received,
    {
        self.unique_received
    }

    /// Counts bytes that were received for the first time.
    pub fn account(&mut self, stream_id: Option<StreamId>, new_bytes: usize) -> (result: Result<
        (),
        CoreError,
    >)
        ensures
            result is Ok <==> old(self).unique_received + new_bytes <= u64::MAX,
            result is Ok ==> *final(self) == (ReceiveFlowControl {
                unique_received: (old(self).unique_received + new_bytes) as u64,
                ..*old(self)
            }),
            result matches Err(error) ==> *final(self) == *old(self) && error == (
            CoreError::FlowControlViolation { stream_id }),
    {
        match self.unique_received.checked_add(new_bytes as u64) {
            Some(total) => {
                self.unique_received = total;
                Ok(())
            },
            None => Err(CoreError::FlowControlViolation { stream_id }),
        }
    }

    /// Counts bytes that were read. Where that raises the limit, gives the new
    /// limit to announce.
    pub fn consume(&mut self, amount: usize) -> (update: Option<u64>)
        ensures
            ({
                let consumed = lesser(old(self).consumed + amount, u64::MAX as int) as u64;
                let desired = lesser(consumed + old(self).window_size, u64::MAX as int) as u64;
                if desired > old(self).advertised_offset {
                    &&& update == Some(desired)
                    &&& *final(self) == (ReceiveFlowControl {
                        consumed,
                        advertised_offset: desired,
                        max_offset: desired,
                        ..*old(self)
                    })
                } else {
                    &&& update is None
                    &&& *final(self) == (ReceiveFlowControl { consumed, ..*old(self) })
                }
            }),
    {
        self.consumed = self.consumed.saturating_add(amount as u64);
        let desired: u64 = self.consumed.saturating_add(self.window_size);
        if desired > self.advertised_offset {
            self.advertised_offset = desired;
            self.max_offset = desired;
            Some(desired)
        } else {
            None
        }
    }
}

} // verus!
