//! Errors of the timing wheel and of its configuration.

use vstd::prelude::*;
use vstd::string::*;

use crate::text::{decimal_text, push_decimal};

verus! {

/// Why a wheel configuration is refused.
#[derive(Debug, Clone, Copy, PartialEq, Eq, Structural)]
pub enum ConfigError {
    /// The base tick is zero.
    ZeroTick,
    /// The base tick in nanoseconds does not fit in 64 bits.
    TickRangeOverflow,
    /// There is no level, or there are too many.
    InvalidLevelCount { count: usize, max: usize },
    /// The number of slots of a level is not a power of two in the accepted range.
    InvalidSlotCount { level: usize, slot_count: usize },
    /// The levels have too many slots in all.
    SlotBudgetExceeded { total_slots: usize, max: usize },
    /// The ticks that a level spans do not fit in 64 bits.
    DerivedRangeOverflow { level: usize },
}

/// Why an operation of the wheel fails.
#[derive(Debug, Clone, Copy, PartialEq, Eq, Structural)]
pub enum TimerError {
    /// The delay cannot be expressed in ticks.
    DelayOverflow,
    /// The elapsed time cannot be expressed in ticks.
    ElapsedOverflow,
    /// The clock of the wheel would pass its last tick.
    ClockOverflow,
    /// The time left until the deadline cannot be expressed as a duration.
    DeadlineOverflow,
    /// The timer is not in the wheel.
    StaleTimerId,
    /// The state of the wheel is inconsistent.
    InvariantViolation,
}

impl ConfigError {
    /// The error in words.
    pub open spec fn spec_message(self) -> Seq<char> {
        match self {
            ConfigError::ZeroTick => "base tick must be greater than zero"@,
            ConfigError::TickRangeOverflow => "base tick is too large to represent in nanoseconds"@,
            ConfigError::InvalidLevelCount { count, max } => "invalid level count "@ + decimal_text(count as nat) + "; expected 1..="@ + decimal_text(max as nat),
            ConfigError::InvalidSlotCount { level, slot_count } => "invalid slot count "@ + decimal_text(slot_count as nat) + " for level "@ + decimal_text(level as nat) + "; expected a power of two in 2..=65536"@,
            ConfigError::SlotBudgetExceeded { total_slots, max } => "slot budget exceeded: "@ + decimal_text(total_slots as nat) + " > "@ + decimal_text(max as nat),
            ConfigError::DerivedRangeOverflow { level } => "derived tick range overflowed at level "@ + decimal_text(level as nat),
        }
    }

    /// The error in words.
    pub fn message(self) -> (message: String)
        ensures
            message@ == self.spec_message(),
    {
        match self {
            ConfigError::ZeroTick => "base tick must be greater than zero".to_owned(),
            ConfigError::TickRangeOverflow => "base tick is too large to represent in nanoseconds".to_owned(),
            ConfigError::InvalidLevelCount { count, max } => {
                let mut text: String = "invalid level count ".to_owned();
                push_decimal(&mut text, count as u64);
                text.append("; expected 1..=");
                push_decimal(&mut text, max as u64);
                text
            },
            ConfigError::InvalidSlotCount { level, slot_count } => {
                let mut text: String = "invalid slot count ".to_owned();
                push_decimal(&mut text, slot_count as u64);
                text.append(" for level ");
                push_decimal(&mut text, level as u64);
                text.append("; expected a power of two in 2..=65536");
                text
            },
            ConfigError::SlotBudgetExceeded { total_slots, max } => {
                let mut text: String = "slot budget exceeded: ".to_owned();
                push_decimal(&mut text, total_slots as u64);
                text.append(" > ");
                push_decimal(&mut text, max as u64);
                text
            },
            ConfigError::DerivedRangeOverflow { level } => {
                let mut text: String = "derived tick range overflowed at level ".to_owned();
                push_decimal(&mut text, level as u64);
                text
            },
        }
    }
}

impl TimerError {
    /// The error in words.
    pub open spec fn spec_message(self) -> Seq<char> {
        match self {
            TimerError::DelayOverflow => "timer delay cannot be represented by the wheel clock"@,
            TimerError::ElapsedOverflow => "elapsed duration cannot be represented by the wheel clock"@,
            TimerError::ClockOverflow => "wheel clock would overflow its u64 tick range"@,
            TimerError::DeadlineOverflow => "timer deadline cannot be represented as a Duration"@,
            TimerError::StaleTimerId => "timer ID is stale or does not belong to this wheel"@,
            TimerError::InvariantViolation => "timing wheel invariant was violated"@,
        }
    }

    /// The error in words.
    pub fn message(self) -> (message: String)
        ensures
            message@ == self.spec_message(),
    {
        match self {
            TimerError::DelayOverflow => "timer delay cannot be represented by the wheel clock".to_owned(),
            TimerError::ElapsedOverflow => "elapsed duration cannot be represented by the wheel clock".to_owned(),
            TimerError::ClockOverflow => "wheel clock would overflow its u64 tick range".to_owned(),
            TimerError::DeadlineOverflow => "timer deadline cannot be represented as a Duration".to_owned(),
            TimerError::StaleTimerId => "timer ID is stale or does not belong to this wheel".to_owned(),
            TimerError::InvariantViolation => "timing wheel invariant was violated".to_owned(),
        }
    }
}

} // verus!
