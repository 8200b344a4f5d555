//! Which timers fire as the clock moves, in which order, and where the others go.

use vstd::prelude::*;

use crate::time_wheel::shape::{blank_slots, place_at, slots_with, LevelShape};
use crate::time_wheel::wheel::{lists_keys, Expired, SMALL_ADVANCE_LIMIT, Timer};

verus! {

/// The slots, and the numbers of the timers that have fired, in order.
#[verifier::ext_equal]
pub struct Firing {
    pub slots: Map<(int, int), Seq<u64>>,
    pub fired: Seq<u64>,
}

/// A timer that is in no slot fires, if it is due, or goes to the end of its slot.
pub open spec fn settled_one<T>(
    state: Firing,
    key: u64,
    timers: Map<u64, Timer<T>>,
    shape: Seq<LevelShape>,
    now: nat,
) -> Firing {
    let deadline = timers[key].deadline_tick;
    if deadline <= now {
        Firing { fired: state.fired.push(key), ..state }
    } else {
        Firing {
            slots: slots_with(state.slots, place_at(shape, now, deadline as nat), key),
            ..state
        }
    }
}

/// The first `count` timers of the chain fire or go to their slots, one by one.
pub open spec fn settled_run<T>(
    state: Firing,
    chain: Seq<u64>,
    count: int,
    timers: Map<u64, Timer<T>>,
    shape: Seq<LevelShape>,
    now: nat,
) -> Firing
    decreases count,
{
    if count <= 0 {
        state
    } else {
        settled_one(
            settled_run(state, chain, count - 1, timers, shape, now),
            chain[count - 1],
            timers,
            shape,
            now,
        )
    }
}

/// A slot is emptied, and its timers fire or go to other slots.
pub open spec fn slot_run<T>(
    state: Firing,
    place: (int, int),
    timers: Map<u64, Timer<T>>,
    shape: Seq<LevelShape>,
    now: nat,
) -> Firing {
    let chain = state.slots[place];
    settled_run(
        Firing { slots: state.slots.insert(place, Seq::empty()), ..state },
        chain,
        chain.len() as int,
        timers,
        shape,
        now,
    )
}

/// The slots that the clock has reached are emptied, from the highest level down to
/// this one. The clock has reached a slot when the ticks that it spans begin.
pub open spec fn levels_run<T>(
    state: Firing,
    level: int,
    timers: Map<u64, Timer<T>>,
    shape: Seq<LevelShape>,
    now: nat,
) -> Firing
    decreases shape.len() - level,
{
    if level >= shape.len() {
        state
    } else {
        let above = levels_run(state, level + 1, timers, shape, now);
        let unit = shape[level].unit;
        if now % unit == 0 {
            let place = (level, ((now / unit) % shape[level].count) as int);
            slot_run(above, place, timers, shape, now)
        } else {
            above
        }
    }
}

/// What happens at `count` ticks, one after the other from `first` on.
pub open spec fn ticks_run<T>(
    state: Firing,
    first: nat,
    count: nat,
    timers: Map<u64, Timer<T>>,
    shape: Seq<LevelShape>,
) -> Firing
    decreases count,
{
    if count == 0 {
        state
    } else {
        let before = ticks_run(state, first, (count - 1) as nat, timers, shape);
        levels_run(before, 0, timers, shape, (first + count - 1) as nat)
    }
}

/// The numbers of the timers that have fired.
pub open spec fn numbers_of<T>(gone: Seq<Expired<T>>) -> Seq<u64> {
    Seq::new(gone.len(), |i: int| gone[i].id.value())
}

/// The slots and the timers that have fired once so many ticks have passed: those of
/// the ticks from the one that the clock shows to the one that it then shows; or,
/// after a jump, those of placing every timer anew in the order of storage.
pub open spec fn fires_so<T>(
    slots: Map<(int, int), Seq<u64>>,
    timers: Map<u64, Timer<T>>,
    shape: Seq<LevelShape>,
    tick: nat,
    ticks: nat,
    after: Map<(int, int), Seq<u64>>,
    gone: Seq<Expired<T>>,
) -> bool {
    let end = Firing { slots: after, fired: numbers_of(gone) };
    if ticks > SMALL_ADVANCE_LIMIT {
        let start = Firing { slots: blank_slots(shape), fired: Seq::empty() };
        exists|keys: Seq<u64>| #[trigger]
            lists_keys(keys, timers) && end == settled_run(
                start,
                keys,
                keys.len() as int,
                timers,
                shape,
                tick + ticks,
            )
    } else {
        let start = Firing { slots, fired: Seq::empty() };
        end == ticks_run(start, tick, ticks + 1, timers, shape)
    }
}

} // verus!
