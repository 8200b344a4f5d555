//! Congestion window of a connection.

use vstd::prelude::*;

verus! {

/// The smaller of two numbers.
pub open spec fn lesser(left: int, right: int) -> int {
    if left <= right {
        left
    } else {
        right
    }
}

/// The larger of two numbers.
pub open spec fn greater(left: int, right: int) -> int {
    if left <= right {
        right
    } else {
        left
    }
}

/// How much may be on its way at once. The window grows by what is acknowledged
/// up to a threshold, then by about one datagram per window, and halves on loss.
#[derive(Debug, Clone, Copy, PartialEq, Eq, Structural)]
pub struct CongestionController {
    pub cwnd: u64,
    pub ssthresh: u64,
    pub bytes_in_flight: u64,
    pub min_cwnd: u64,
    pub max_cwnd: u64,
    pub mss: u64,
}

impl CongestionController {
    /// The window stays within its bounds.
    pub open spec fn well_formed(self) -> bool {
        &&& self.min_cwnd <= self.cwnd <= self.max_cwnd
        &&& self.mss >= 1
    }

    /// The window after `bytes` were acknowledged.
    pub open spec fn window_after_ack(self, bytes: usize) -> int {
        if self.cwnd < self.ssthresh {
            lesser(self.cwnd + bytes, self.max_cwnd as int)
        } else {
            let increment = greater(
                lesser(self.mss * bytes, u64::MAX as int) / greater(self.cwnd as int, 1),
                1,
            );
            lesser(lesser(self.cwnd + increment, u64::MAX as int), self.max_cwnd as int)
        }
    }

    /// The controller after `bytes` were acknowledged.
    pub open spec fn after_ack(self, bytes: usize) -> Self {
        CongestionController {
            bytes_in_flight: greater(self.bytes_in_flight - bytes, 0) as u64,
            cwnd: self.window_after_ack(bytes) as u64,
            ..self
        }
    }

    /// The controller after `bytes` were lost.
    pub open spec fn after_loss(self, bytes: usize) -> Self {
        let halved = greater(self.cwnd as int / 2, self.min_cwnd as int) as u64;
        CongestionController {
            bytes_in_flight: greater(self.bytes_in_flight - bytes, 0) as u64,
            ssthresh: halved,
            cwnd: halved,
            ..self
        }
    }

    /// The controller after `bytes` were sent.
    pub open spec fn after_send(self, bytes: usize) -> Self {
        CongestionController {
            bytes_in_flight: lesser(self.bytes_in_flight + bytes, u64::MAX as int) as u64,
            ..self
        }
    }

    /// Whether the window has room for `bytes` more.
    pub open spec fn has_room(self, bytes: usize) -> bool {
        lesser(self.bytes_in_flight + bytes, u64::MAX as int) <= self.cwnd
    }

    /// A controller with nothing on its way.
    pub fn new(initial_cwnd: u64, min_cwnd: u64, max_cwnd: u64, mss: usize) -> (controller: Self)
        requires
            min_cwnd <= max_cwnd,
        ensures
            controller.well_formed(),
            controller.cwnd == greater(
                min_cwnd as int,
                lesser(initial_cwnd as int, max_cwnd as int),
            ),
            controller.ssthresh == max_cwnd,
            controller.bytes_in_flight == 0,
            controller.min_cwnd == min_cwnd,
            controller.max_cwnd == max_cwnd,
            controller.mss == greater(mss as int, 1),
    {
        let cwnd: u64 = if initial_cwnd < min_cwnd {
            min_cwnd
        } else if initial_cwnd > max_cwnd {
            max_cwnd
        } else {
            initial_cwnd
        };
        let mss: u64 = if mss < 1 {
            1
        } else {
            mss as u64
        };
        CongestionController {
            cwnd,
            ssthresh: max_cwnd,
            bytes_in_flight: 0,
            min_cwnd,
            max_cwnd,
            mss,
        }
    }

    /// The window.
    pub fn cwnd(self) -> (cwnd: u64)
        ensures
            cwnd == self.cwnd,
    {
        self.cwnd
    }

    /// The bytes on their way.
    pub fn bytes_in_flight(self) -> (bytes: u64)
        ensures
            bytes == self.bytes_in_flight,
    {
        self.bytes_in_flight
    }

    /// Whether the window has room for `bytes` more.
    pub fn can_send(self, bytes: usize) -> (room: bool)
        ensures
            room <==> self.has_room(bytes),
    {
        self.bytes_in_flight.saturating_add(bytes as u64) <= self.cwnd
    }

    /// Counts bytes that were sent.
    pub fn on_sent(&mut self, bytes: usize)
        ensures
            *final(self) == old(self).after_send(bytes),
    {
        self.bytes_in_flight = self.bytes_in_flight.saturating_add(bytes as u64);
    }

    /// Counts bytes that arrived and lets the window grow.
    pub fn on_acked(&mut self, bytes: usize)
        requires
            old(self).well_formed(),
        ensures
            final(self).well_formed(),
            *final(self) == old(self).after_ack(bytes),
            final(self).cwnd >= old(self).cwnd,
            final(self).cwnd == old(self).window_after_ack(bytes),
    {
        self.bytes_in_flight = self.bytes_in_flight.saturating_sub(bytes as u64);
        let bytes: u64 = bytes as u64;
        let grown: u64 = if self.cwnd < self.ssthresh {
            self.cwnd.saturating_add(bytes)
        } else {
            let product: u64 = match self.mss.checked_mul(bytes) {
                Some(product) => product,
                None => u64::MAX,
            };
            let window: u64 = if self.cwnd < 1 {
                1
            } else {
                self.cwnd
            };
            assert(product / window <= product) by {
                vstd::arithmetic::div_mod::lemma_div_is_ordered_by_denominator(
                    product as int,
                    1,
                    window as int,
                );
            }
            let increment: u64 = product / window;
            let increment: u64 = if increment < 1 {
                1
            } else {
                increment
            };
            self.cwnd.saturating_add(increment)
        };
        self.cwnd = if grown > self.max_cwnd {
            self.max_cwnd
        } else {
            grown
        };
    }

    /// Counts bytes that were lost and halves the window.
    pub fn on_loss(&mut self, bytes: usize)
        requires
            old(self).well_formed(),
        ensures
            final(self).well_formed(),
            *final(self) == old(self).after_loss(bytes),
            final(self).cwnd <= old(self).cwnd,
    {
        self.bytes_in_flight = self.bytes_in_flight.saturating_sub(bytes as u64);
        let half: u64 = self.cwnd / 2;
        self.ssthresh = if half < self.min_cwnd {
            self.min_cwnd
        } else {
            half
        };
        self.cwnd = self.ssthresh;
    }
}

} // verus!
