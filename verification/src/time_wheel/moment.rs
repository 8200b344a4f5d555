//! A wheel at one moment, and what happens to it from one moment to the next.

use vstd::prelude::*;

use crate::time_wheel::firing::fires_so;
use crate::time_wheel::shape::{place_at, LevelShape};
use crate::time_wheel::order::{
    in_storage_order, order_kept, slot_joined, slot_left, slot_moved, stands,
};
use crate::time_wheel::wheel::{
    in_firing_order, moved, slot_taken, vacated, Expired, Handles, SMALL_ADVANCE_LIMIT, Timer,
    Wheel,
};

verus! {

/// A wheel at one moment.
pub struct Moment<T> {
    /// The timers, under the numbers of their handles.
    pub timers: Map<u64, Timer<T>>,
    /// The versions of the slots that the timers are stored in.
    pub versions: Seq<u32>,
    /// The numbers of the levels.
    pub shape: Seq<LevelShape>,
    /// The slots, each with the numbers of its timers in order.
    pub slots: Map<(int, int), Seq<u64>>,
    /// The clock.
    pub tick: u64,
    /// Nanoseconds that have passed since the clock last moved.
    pub remainder: nat,
    /// Length of a tick in nanoseconds.
    pub tick_nanos: nat,
}

impl<T> Moment<T> {
    /// The handles of the wheel.
    pub open spec fn handles(self) -> Handles {
        Handles { keys: self.timers.dom(), versions: self.versions }
    }
}

impl<T> Wheel<T> {
    /// The wheel as it is now.
    pub open spec fn moment(&self) -> Moment<T> {
        Moment {
            timers: self.timers(),
            versions: self.versions(),
            shape: self.shape(),
            slots: self.slots(),
            tick: self.tick(),
            remainder: self.remainder(),
            tick_nanos: self.tick_nanos(),
        }
    }
}

/// What happens to a wheel.
pub enum WheelEvent<T> {
    /// A timer was added.
    Added { key: u64, timer: Timer<T> },
    /// A timer got another deadline.
    Rescheduled { key: u64, deadline_tick: u64 },
    /// A timer was taken out.
    Cancelled { key: u64 },
    /// All timers were taken out.
    Cleared,
    /// Time passed, and timers fired.
    Passed { elapsed: nat, gone: Seq<Expired<T>> },
}

/// The clock did not move.
pub open spec fn clock_stood<T>(before: Moment<T>, after: Moment<T>) -> bool {
    &&& after.tick == before.tick
    &&& after.remainder == before.remainder
    &&& after.tick_nanos == before.tick_nanos
    &&& after.shape == before.shape
}

/// The slot to which a timer goes that is due at this tick.
pub open spec fn place_in<T>(moment: Moment<T>, deadline_tick: u64) -> (int, int) {
    place_at(moment.shape, moment.tick as nat, deadline_tick as nat)
}

/// The event brings the wheel from one moment to the other.
pub open spec fn event_done<T>(
    before: Moment<T>,
    event: WheelEvent<T>,
    after: Moment<T>,
) -> bool {
    match event {
        WheelEvent::Added { key, timer } => {
            &&& clock_stood(before, after)
            &&& !before.timers.contains_key(key)
            &&& after.timers == before.timers.insert(key, timer)
            &&& slot_taken(before.versions, after.versions, key)
            &&& slot_joined(
                before.slots,
                after.slots,
                place_in(before, timer.deadline_tick),
                key,
            )
        },
        WheelEvent::Rescheduled { key, deadline_tick } => {
            &&& clock_stood(before, after)
            &&& before.timers.contains_key(key)
            &&& after.timers == before.timers.insert(
                key,
                Timer { item: before.timers[key].item, deadline_tick },
            )
            &&& after.versions == before.versions
            &&& slot_moved(before.slots, after.slots, place_in(before, deadline_tick), key)
        },
        WheelEvent::Cancelled { key } => {
            &&& clock_stood(before, after)
            &&& before.timers.contains_key(key)
            &&& after.timers == before.timers.remove(key)
            &&& vacated(before.versions, after.versions)
            &&& slot_left(before.slots, after.slots, key)
        },
        WheelEvent::Cleared => {
            &&& clock_stood(before, after)
            &&& after.timers == Map::<u64, Timer<T>>::empty()
            &&& vacated(before.versions, after.versions)
            &&& forall|place: (int, int), at: int, key: u64| !#[trigger]
                stands(after.slots, place, at, key)
        },
        WheelEvent::Passed { elapsed, gone } => {
            let ticks = (before.remainder + elapsed) / before.tick_nanos;
            &&& before.tick + ticks <= u64::MAX
            &&& after.tick == before.tick + ticks
            &&& after.remainder == (before.remainder + elapsed) % before.tick_nanos
            &&& after.tick_nanos == before.tick_nanos
            &&& after.shape == before.shape
            &&& moved(before.timers, after.timers, gone)
            &&& forall|key: u64| #[trigger]
                before.timers.contains_key(key) ==> (after.timers.contains_key(key)
                    <==> before.timers[key].deadline_tick > after.tick)
            &&& vacated(before.versions, after.versions)
            &&& in_firing_order(gone, ticks)
            &&& fires_so(
                before.slots,
                before.timers,
                before.shape,
                before.tick as nat,
                ticks,
                after.slots,
                gone,
            )
            &&& if ticks > SMALL_ADVANCE_LIMIT {
                in_storage_order(after.slots)
            } else {
                order_kept(before.slots, before.timers, after.slots, gone)
            }
        },
    }
}

} // verus!
