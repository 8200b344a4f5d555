//! Handles of timers.

use vstd::prelude::*;

use crate::time_wheel::table::key_valid;

verus! {

/// Names one timer of a wheel.
#[derive(Debug, Clone, Copy, PartialEq, Eq, Structural, Hash)]
pub struct TimerId {
    raw: u64,
}

impl TimerId {
    /// The number that stands for the handle.
    pub closed spec fn value(self) -> u64 {
        self.raw
    }

    #[verifier::type_invariant]
    spec fn names_a_key(self) -> bool {
        key_valid(self.raw)
    }

    /// The handle of the timer under the key `raw`.
    pub(crate) fn from_key(raw: u64) -> (id: TimerId)
        requires
            key_valid(raw),
        ensures
            id.value() == raw,
    {
        TimerId { raw }
    }

    /// The key of the timer.
    pub(crate) fn key(self) -> (raw: u64)
        ensures
            raw == self.value(),
            key_valid(raw),
    {
        proof {
            use_type_invariant(&self);
        }
        self.raw
    }

    /// The number that stands for the handle, for logs.
    pub fn raw(self) -> (raw: u64)
        ensures
            raw == self.value(),
    {
        self.raw
    }
}

} // verus!
