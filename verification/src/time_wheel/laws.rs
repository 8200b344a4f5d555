//! What holds of a wheel over several operations.

use vstd::arithmetic::div_mod::{
    lemma_div_is_ordered, lemma_fundamental_div_mod, lemma_fundamental_div_mod_converse,
    lemma_mod_bound,
};
use vstd::prelude::*;

use crate::duration::Duration;
use crate::time_wheel::error::TimerError;
use crate::time_wheel::moment::{event_done, place_in, Moment, WheelEvent};
use crate::time_wheel::table::{key_index, key_version};
use crate::time_wheel::order::{
    ahead, fired_before, lemma_joined_keeps, lemma_left_keeps, slot_joined, slot_left, stands,
};
use crate::time_wheel::wheel::{
    delay_ticks, handles_step, is_earliest, lemma_key_parts, nanos_until, slot_taken, units_up,
    vacated, versions_match, Handles, SMALL_ADVANCE_LIMIT, Timer, Wheel,
};

verus! {

/// A timer never fires before its delay has passed: if the clock has reached
/// its deadline after `elapsed` nanoseconds, these are at least the delay.
pub proof fn law_never_early(delay: nat, remainder: nat, elapsed: nat, tick_nanos: nat)
    requires
        remainder < tick_nanos,
        (remainder + elapsed) / tick_nanos >= delay_ticks(delay, remainder, tick_nanos),
    ensures
        elapsed >= delay,
{
    if delay > 0 {
        let due = units_up(delay + remainder, tick_nanos);
        let passed = (remainder + elapsed) / tick_nanos;
        lemma_fundamental_div_mod((delay + remainder) as int, tick_nanos as int);
        lemma_fundamental_div_mod((remainder + elapsed) as int, tick_nanos as int);
        lemma_mod_bound((delay + remainder) as int, tick_nanos as int);
        lemma_mod_bound((remainder + elapsed) as int, tick_nanos as int);
        let whole = (delay + remainder) / tick_nanos;
        assert(due == whole ==> tick_nanos * due == tick_nanos * whole);
        assert(due == whole + 1 ==> tick_nanos * due == tick_nanos * whole + tick_nanos)
            by (nonlinear_arith)
        ;
        assert(tick_nanos * due <= tick_nanos * passed) by (nonlinear_arith)
            requires
                due <= passed,
        ;
    }
}

/// A timer fires less than one tick after its delay has passed.
pub proof fn law_less_than_a_tick_late(
    delay: nat,
    remainder: nat,
    elapsed: nat,
    tick_nanos: nat,
)
    requires
        remainder < tick_nanos,
        elapsed + 1 >= delay + tick_nanos,
    ensures
        (remainder + elapsed) / tick_nanos >= delay_ticks(delay, remainder, tick_nanos),
{
    if delay > 0 {
        let amount = delay + remainder;
        lemma_fundamental_div_mod(amount as int, tick_nanos as int);
        lemma_mod_bound(amount as int, tick_nanos as int);
        let whole = amount / tick_nanos;
        if amount % tick_nanos == 0 {
            lemma_div_is_ordered(amount as int, (remainder + elapsed) as int, tick_nanos as int);
        } else {
            let next = tick_nanos * (whole + 1);
            assert(next == tick_nanos * whole + tick_nanos) by (nonlinear_arith)
                requires
                    next == tick_nanos * (whole + 1),
            ;
            assert(next == (whole + 1) * tick_nanos + 0) by (nonlinear_arith)
                requires
                    next == tick_nanos * (whole + 1),
            ;
            lemma_fundamental_div_mod_converse(
                next as int,
                tick_nanos as int,
                (whole + 1) as int,
                0,
            );
            lemma_div_is_ordered(next as int, (remainder + elapsed) as int, tick_nanos as int);
        }
    }
}

/// Advancing twice moves the clock as advancing once by the sum does.
pub proof fn law_advances_add_up(remainder: nat, first: nat, second: nat, tick_nanos: nat)
    requires
        remainder < tick_nanos,
    ensures
        (remainder + first) / tick_nanos + ((remainder + first) % tick_nanos + second) / tick_nanos
            == (remainder + first + second) / tick_nanos,
        ((remainder + first) % tick_nanos + second) % tick_nanos == (remainder + first + second)
            % tick_nanos,
{
    let half = remainder + first;
    let rest = half % tick_nanos + second;
    let all = half + second;
    lemma_fundamental_div_mod(half as int, tick_nanos as int);
    lemma_fundamental_div_mod(rest as int, tick_nanos as int);
    lemma_mod_bound(rest as int, tick_nanos as int);
    let quotient = half / tick_nanos + rest / tick_nanos;
    let half_units = half / tick_nanos;
    let rest_units = rest / tick_nanos;
    assert(quotient * tick_nanos == tick_nanos * half_units + tick_nanos * rest_units)
        by (nonlinear_arith)
        requires
            quotient == half_units + rest_units,
    ;
    lemma_fundamental_div_mod_converse(
        all as int,
        tick_nanos as int,
        quotient as int,
        (rest % tick_nanos) as int,
    );
}

/// The time left until a deadline is exact: advancing by it brings the clock to
/// the deadline, and advancing by less does not.
pub proof fn law_time_left_is_exact(
    deadline: u64,
    tick: u64,
    remainder: nat,
    elapsed: nat,
    tick_nanos: nat,
)
    requires
        remainder < tick_nanos,
        tick < deadline,
    ensures
        tick + (remainder + nanos_until(deadline, tick, remainder, tick_nanos)) / tick_nanos
            == deadline,
        elapsed < nanos_until(deadline, tick, remainder, tick_nanos) ==> tick + (remainder
            + elapsed) / tick_nanos < deadline,
{
    let ticks = (deadline - tick) as nat;
    let left = nanos_until(deadline, tick, remainder, tick_nanos);
    assert(ticks * tick_nanos >= tick_nanos) by (nonlinear_arith)
        requires
            ticks >= 1,
    ;
    assert(remainder + left == ticks * tick_nanos);
    lemma_fundamental_div_mod_converse(
        (remainder + left) as int,
        tick_nanos as int,
        ticks as int,
        0,
    );
    if elapsed < left {
        let passed = (remainder + elapsed) / tick_nanos;
        lemma_fundamental_div_mod((remainder + elapsed) as int, tick_nanos as int);
        lemma_mod_bound((remainder + elapsed) as int, tick_nanos as int);
        assert(passed < ticks) by (nonlinear_arith)
            requires
                tick_nanos * passed <= remainder + elapsed,
                remainder + elapsed < ticks * tick_nanos,
        ;
    }
}

/// The time until the next deadline is the time until the first timer is due: none is
/// due sooner, and one is due then.
pub proof fn law_next_deadline_is_the_first<T>(
    wheel: &Wheel<T>,
    result: Result<Option<Duration>, TimerError>,
)
    requires
        wheel.well_formed(),
        call_ensures(Wheel::<T>::next_deadline, (wheel,), result),
    ensures
        result matches Ok(None) ==> wheel.timers().dom().len() == 0,
        result matches Ok(Some(left)) ==> {
            let now = wheel.tick() * wheel.tick_nanos() + wheel.remainder();
            &&& forall|key: u64| #[trigger]
                wheel.timers().contains_key(key) && left@ > 0 ==> now + left@
                    <= wheel.timers()[key].deadline_tick * wheel.tick_nanos()
            &&& exists|key: u64| #[trigger]
                wheel.timers().contains_key(key) && if left@ > 0 {
                    now + left@ == wheel.timers()[key].deadline_tick * wheel.tick_nanos()
                } else {
                    wheel.timers()[key].deadline_tick <= wheel.tick()
                }
        },
{
    wheel.lemma_remainder_is_short();
    if result is Ok && result->Ok_0 is Some {
        let left = result->Ok_0->0@;
        let nanos = wheel.tick_nanos();
        let tick = wheel.tick();
        let first = choose|deadline: u64| #[trigger]
            is_earliest(wheel.timers(), deadline) && left == nanos_until(
                deadline,
                tick,
                wheel.remainder(),
                nanos,
            );
        if first > tick {
            assert((first - tick) * nanos >= nanos && (first - tick) * nanos == first * nanos
                - tick * nanos) by (nonlinear_arith)
                requires
                    first - tick >= 1,
                    nanos >= 0,
            ;
            assert(left > 0);
        }
        assert forall|key: u64| #[trigger]
            wheel.timers().contains_key(key) && left > 0 implies tick * nanos + wheel.remainder()
            + left <= wheel.timers()[key].deadline_tick * nanos by {
            let due = wheel.timers()[key].deadline_tick;
            assert(first * nanos <= due * nanos) by (nonlinear_arith)
                requires
                    first <= due,
                    nanos >= 0,
            ;
        }
        let key = choose|key: u64| #[trigger]
            wheel.timers().contains_key(key) && wheel.timers()[key].deadline_tick == first;
        assert(wheel.timers().contains_key(key));
    }
}

/// Whether the handles of a wheel go through these states, one operation after the
/// other.
pub open spec fn handles_run(states: Seq<Handles>) -> bool {
    &&& forall|i: int|
        0 <= i < states.len() ==> versions_match(
            (#[trigger] states[i]).keys,
            states[i].versions,
        )
    &&& forall|i: int|
        #![trigger states[i]]
        0 <= i < states.len() - 1 ==> handles_step(states[i], states[i + 1])
}

/// Whether a timer leaves: it fires, or it is cancelled.
pub open spec fn leaves(before: Handles, after: Handles, key: u64) -> bool {
    before.keys.contains(key) && !after.keys.contains(key)
}

/// Whether the slot of a timer has used up its versions.
pub open spec fn is_worn(handles: Handles, key: u64) -> bool {
    key_index(key) < handles.versions.len() && handles.versions[key_index(key) as int] == u32::MAX
}

/// Whether the slot that a number names has gone on to a higher version.
pub open spec fn is_stale(handles: Handles, key: u64) -> bool {
    key_index(key) < handles.versions.len() && key_version(key) < handles.versions[key_index(
        key,
    ) as int]
}

/// A handle whose slot has gone on names no timer.
pub proof fn law_stale_handle_names_nothing(handles: Handles, key: u64)
    requires
        versions_match(handles.keys, handles.versions),
        is_stale(handles, key),
    ensures
        !handles.keys.contains(key),
{
}

/// The slot of a timer that leaves goes on to a higher version, unless it has used
/// them up.
proof fn lemma_left_is_stale(before: Handles, after: Handles, key: u64)
    requires
        versions_match(before.keys, before.versions),
        versions_match(after.keys, after.versions),
        handles_step(before, after),
        leaves(before, after, key),
        !is_worn(before, key),
    ensures
        is_stale(after, key),
{
    lemma_key_parts(key);
    let index = key_index(key) as int;
    assert(before.versions[index] == key_version(key));
    assert(vacated(before.versions, after.versions));
    if after.versions[index] == before.versions[index] {
        assert(after.versions[index] % 2 == 1);
    }
}

/// A slot that has gone on does not come back, unless it has used its versions up.
proof fn lemma_stays_stale(before: Handles, after: Handles, key: u64)
    requires
        handles_step(before, after),
        is_stale(before, key),
        !is_worn(before, key),
    ensures
        is_stale(after, key),
{
    let index = key_index(key) as int;
    if exists|other: u64| #[trigger]
        slot_taken(before.versions, after.versions, other) && after.keys == before.keys.insert(
            other,
        ) {
        let other = choose|other: u64| #[trigger] slot_taken(before.versions, after.versions, other);
        assert(after.versions[index] >= before.versions[index]);
    } else {
        assert(after.versions[index] == before.versions[index] || after.versions[index]
            == before.versions[index] + 1);
    }
}

proof fn lemma_stale_from_then_on(states: Seq<Handles>, key: u64, left: int, later: int)
    requires
        handles_run(states),
        0 <= left < later < states.len(),
        leaves(states[left], states[left + 1], key),
        forall|i: int| left <= i < states.len() ==> !is_worn(#[trigger] states[i], key),
    ensures
        is_stale(states[later], key),
    decreases later - left,
{
    if later == left + 1 {
        assert(handles_step(states[left], states[left + 1]));
        lemma_left_is_stale(states[left], states[left + 1], key);
    } else {
        lemma_stale_from_then_on(states, key, left, later - 1);
        assert(handles_step(states[later - 1], states[later - 1 + 1]));
        lemma_stays_stale(states[later - 1], states[later], key);
    }
}

/// A handle whose timer has fired or was cancelled never names a timer again,
/// whatever is added later, as long as its slot has not used up its versions.
pub proof fn law_handle_stays_stale(states: Seq<Handles>, key: u64, left: int, later: int)
    requires
        handles_run(states),
        0 <= left < later < states.len(),
        leaves(states[left], states[left + 1], key),
        forall|i: int| left <= i < states.len() ==> !is_worn(#[trigger] states[i], key),
    ensures
        !states[later].keys.contains(key),
{
    lemma_stale_from_then_on(states, key, left, later);
    law_stale_handle_names_nothing(states[later], key);
}

/// A timer fires once over all operations: having left, it does not leave again,
/// as long as its slot has not used up its versions.
pub proof fn law_timer_fires_once(states: Seq<Handles>, key: u64, left: int, later: int)
    requires
        handles_run(states),
        0 <= left < later < states.len() - 1,
        leaves(states[left], states[left + 1], key),
        forall|i: int| left <= i < states.len() ==> !is_worn(#[trigger] states[i], key),
    ensures
        !leaves(states[later], states[later + 1], key),
{
    law_handle_stays_stale(states, key, left, later);
}

/// Cancelling a timer right after adding it leaves the timers that were there.
pub proof fn law_cancel_undoes_insert<T>(timers: Map<u64, Timer<T>>, key: u64, timer: Timer<T>)
    requires
        !timers.contains_key(key),
    ensures
        timers.insert(key, timer).remove(key) == timers,
{
    assert(timers.insert(key, timer).remove(key) =~= timers);
}

/// Whether a wheel goes through these moments by these events.
pub open spec fn wheel_run<T>(moments: Seq<Moment<T>>, events: Seq<WheelEvent<T>>) -> bool {
    &&& moments.len() == events.len() + 1
    &&& forall|i: int|
        #![trigger moments[i]]
        0 <= i < moments.len() ==> {
            &&& versions_match(moments[i].timers.dom(), moments[i].versions)
            &&& moments[i].remainder < moments[i].tick_nanos
        }
    &&& forall|i: int|
        0 <= i < events.len() ==> event_done(moments[i], #[trigger] events[i], moments[i + 1])
}

/// Whether an event leaves a timer as it is, unless it fires.
pub open spec fn leaves_alone<T>(event: WheelEvent<T>, key: u64) -> bool {
    match event {
        WheelEvent::Added { .. } => true,
        WheelEvent::Rescheduled { key: other, .. } => other != key,
        WheelEvent::Cancelled { key: other } => other != key,
        WheelEvent::Cleared => false,
        WheelEvent::Passed { .. } => true,
    }
}

/// Whether a timer fires in an event.
pub open spec fn fires<T>(event: WheelEvent<T>, key: u64) -> bool {
    event matches WheelEvent::Passed { gone, .. } && exists|i: int|
        0 <= i < gone.len() && (#[trigger] gone[i]).id.value() == key
}

/// Nanoseconds that pass in an event.
pub open spec fn span<T>(event: WheelEvent<T>) -> nat {
    match event {
        WheelEvent::Passed { elapsed, .. } => elapsed,
        _ => 0,
    }
}

/// Nanoseconds that pass in the first `count` events.
pub open spec fn spans<T>(events: Seq<WheelEvent<T>>, count: int) -> nat
    decreases count,
{
    if count <= 0 {
        0
    } else {
        spans(events, count - 1) + span(events[count - 1])
    }
}

/// Whether the clock was advanced in one of the first `count` events.
pub open spec fn some_time_passed<T>(events: Seq<WheelEvent<T>>, count: int) -> bool {
    exists|i: int| 0 <= i < count && #[trigger] events[i] is Passed
}

/// The clock shows what has passed.
proof fn lemma_clock<T>(moments: Seq<Moment<T>>, events: Seq<WheelEvent<T>>, count: int)
    requires
        wheel_run(moments, events),
        0 <= count <= events.len(),
    ensures
        ({
            let start = moments[0];
            let all = start.remainder + spans(events, count);
            &&& moments[count].tick_nanos == start.tick_nanos
            &&& moments[count].tick == start.tick + all / start.tick_nanos
            &&& moments[count].remainder == all % start.tick_nanos
        }),
    decreases count,
{
    let start = moments[0];
    if count == 0 {
        lemma_fundamental_div_mod_converse(
            start.remainder as int,
            start.tick_nanos as int,
            0,
            start.remainder as int,
        );
    } else {
        let last = count - 1;
        lemma_clock(moments, events, last);
        assert(event_done(moments[last], events[last], moments[last + 1]));
        law_advances_add_up(
            start.remainder,
            spans(events, last),
            span(events[last]),
            start.tick_nanos,
        );
        if !(events[last] is Passed) {
            assert(spans(events, count) == spans(events, last));
        }
    }
}

/// The handles of a wheel that goes through these moments.
pub open spec fn handles_of<T>(moments: Seq<Moment<T>>) -> Seq<Handles> {
    Seq::new(moments.len(), |i: int| moments[i].handles())
}

/// An event is a step of the handles.
proof fn lemma_event_step<T>(before: Moment<T>, event: WheelEvent<T>, after: Moment<T>)
    requires
        event_done(before, event, after),
    ensures
        handles_step(before.handles(), after.handles()),
{
    let old_keys = before.timers.dom();
    let new_keys = after.timers.dom();
    match event {
        WheelEvent::Added { key, .. } => {
            assert(new_keys =~= old_keys.insert(key));
        },
        WheelEvent::Rescheduled { key, .. } => {
            assert(new_keys =~= old_keys);
            assert(vacated(before.versions, after.versions));
        },
        WheelEvent::Cancelled { key } => {
            assert(new_keys.subset_of(old_keys));
        },
        WheelEvent::Cleared => {
            assert(new_keys.subset_of(old_keys));
        },
        WheelEvent::Passed { .. } => {
            assert(new_keys.subset_of(old_keys)) by {
                assert forall|key: u64| new_keys.contains(key) implies old_keys.contains(key) by {
                    assert(after.timers.contains_key(key));
                }
            }
        },
    }
}

proof fn lemma_handles_run<T>(moments: Seq<Moment<T>>, events: Seq<WheelEvent<T>>)
    requires
        wheel_run(moments, events),
    ensures
        handles_run(handles_of(moments)),
{
    let states = handles_of(moments);
    assert forall|i: int| 0 <= i < states.len() implies versions_match(
        (#[trigger] states[i]).keys,
        states[i].versions,
    ) by {
        assert(states[i] == moments[i].handles());
    }
    assert forall|i: int| #![trigger states[i]] 0 <= i < states.len() - 1 implies handles_step(
        states[i],
        states[i + 1],
    ) by {
        assert(event_done(moments[i], events[i], moments[i + 1]));
        lemma_event_step(moments[i], events[i], moments[i + 1]);
    }
}

/// A timer that fires leaves, and carries what it was added with.
proof fn lemma_fires<T>(before: Moment<T>, event: WheelEvent<T>, after: Moment<T>, key: u64)
    requires
        event_done(before, event, after),
        fires(event, key),
    ensures
        before.timers.contains_key(key),
        !after.timers.contains_key(key),
        before.timers[key].deadline_tick <= after.tick,
{
}

/// As long as a timer is there it is as it was added, and not due; and once it is
/// no longer there it has fired.
proof fn lemma_life<T>(
    moments: Seq<Moment<T>>,
    events: Seq<WheelEvent<T>>,
    key: u64,
    count: int,
)
    requires
        wheel_run(moments, events),
        moments[0].timers.contains_key(key),
        forall|i: int| 0 <= i < events.len() ==> leaves_alone(#[trigger] events[i], key),
        forall|i: int| 0 <= i < moments.len() ==> !is_worn(#[trigger] moments[i].handles(), key),
        0 <= count <= events.len(),
    ensures
        ({
            let timers = moments[count].timers;
            if timers.contains_key(key) {
                &&& timers[key] == moments[0].timers[key]
                &&& some_time_passed(events, count) ==> timers[key].deadline_tick
                    > moments[count].tick
            } else {
                exists|i: int| 0 <= i < count && fires(#[trigger] events[i], key)
            }
        }),
    decreases count,
{
    if count > 0 {
        let last = count - 1;
        let before = moments[last];
        let event = events[last];
        let after = moments[last + 1];
        lemma_life(moments, events, key, last);
        assert(event_done(before, event, after));
        if before.timers.contains_key(key) {
            if after.timers.contains_key(key) {
                if some_time_passed(events, count) && !(event is Passed) {
                    let i = choose|i: int| 0 <= i < count && #[trigger] events[i] is Passed;
                    assert(i < last);
                    assert(some_time_passed(events, last));
                }
            } else {
                assert(event is Passed);
                assert(fires(events[last], key));
            }
        } else {
            let i = choose|i: int| 0 <= i < last && fires(#[trigger] events[i], key);
            assert(event_done(moments[i], events[i], moments[i + 1]));
            lemma_fires(moments[i], events[i], moments[i + 1], key);
            lemma_gone_for_good(moments, events, key, i, count);
        }
    }
}

/// A timer that has fired is not there at any later moment.
proof fn lemma_gone_for_good<T>(
    moments: Seq<Moment<T>>,
    events: Seq<WheelEvent<T>>,
    key: u64,
    fired: int,
    later: int,
)
    requires
        wheel_run(moments, events),
        forall|i: int| 0 <= i < moments.len() ==> !is_worn(#[trigger] moments[i].handles(), key),
        0 <= fired < later <= events.len(),
        fires(events[fired], key),
    ensures
        !moments[later].timers.contains_key(key),
{
    let states = handles_of(moments);
    lemma_handles_run(moments, events);
    assert(event_done(moments[fired], events[fired], moments[fired + 1]));
    lemma_fires(moments[fired], events[fired], moments[fired + 1], key);
    assert(leaves(states[fired], states[fired + 1], key));
    assert forall|i: int| fired <= i < states.len() implies !is_worn(#[trigger] states[i], key) by {
        assert(states[i] == moments[i].handles());
    }
    law_handle_stays_stale(states, key, fired, later);
    assert(states[later] == moments[later].handles());
}

/// The whole life of a timer that is neither cancelled nor rescheduled, from the
/// moment at which it was added with a delay, whatever happens to other timers and
/// however the time passes. It fires no earlier than its delay; once the clock
/// was advanced by a delay and almost a tick it has fired; it fires with what it
/// was added with; and it fires once, as long as its slot has not used up its
/// versions.
pub proof fn law_timer_fires_in_time_and_once<T>(
    moments: Seq<Moment<T>>,
    events: Seq<WheelEvent<T>>,
    key: u64,
    delay: nat,
)
    requires
        wheel_run(moments, events),
        moments[0].timers.contains_key(key),
        moments[0].timers[key].deadline_tick == moments[0].tick + delay_ticks(
            delay,
            moments[0].remainder,
            moments[0].tick_nanos,
        ),
        forall|i: int| 0 <= i < events.len() ==> leaves_alone(#[trigger] events[i], key),
        forall|i: int| 0 <= i < moments.len() ==> !is_worn(#[trigger] moments[i].handles(), key),
    ensures
        forall|i: int|
            0 <= i < events.len() && fires(#[trigger] events[i], key) ==> spans(events, i + 1)
                >= delay,
        forall|count: int|
            0 <= count <= events.len() && some_time_passed(events, count) && #[trigger] spans(
                events,
                count,
            ) + 1 >= delay + moments[0].tick_nanos ==> exists|i: int|
                0 <= i < count && fires(#[trigger] events[i], key),
        forall|i: int, at: int|
            #![trigger events[i]->gone[at]]
            0 <= i < events.len() && events[i] is Passed && 0 <= at < events[i]->gone.len()
                && events[i]->gone[at].id.value() == key ==> events[i]->gone[at].item
                == moments[0].timers[key].item && events[i]->gone[at].deadline_tick
                == moments[0].timers[key].deadline_tick,
        forall|i: int, j: int|
            0 <= i < j < events.len() && fires(#[trigger] events[i], key) ==> !fires(
                #[trigger] events[j],
                key,
            ),
{
    let start = moments[0];
    assert forall|i: int| 0 <= i < events.len() && fires(#[trigger] events[i], key) implies spans(
        events,
        i + 1,
    ) >= delay by {
        assert(event_done(moments[i], events[i], moments[i + 1]));
        lemma_fires(moments[i], events[i], moments[i + 1], key);
        lemma_life(moments, events, key, i);
        lemma_clock(moments, events, i + 1);
        law_never_early(delay, start.remainder, spans(events, i + 1), start.tick_nanos);
    }
    assert forall|count: int|
        0 <= count <= events.len() && some_time_passed(events, count) && #[trigger] spans(
            events,
            count,
        ) + 1 >= delay + start.tick_nanos implies exists|i: int|
        0 <= i < count && fires(#[trigger] events[i], key) by {
        lemma_life(moments, events, key, count);
        lemma_clock(moments, events, count);
        law_less_than_a_tick_late(delay, start.remainder, spans(events, count), start.tick_nanos);
    }
    assert forall|i: int, at: int|
        #![trigger events[i]->gone[at]]
        0 <= i < events.len() && events[i] is Passed && 0 <= at < events[i]->gone.len()
            && events[i]->gone[at].id.value() == key implies events[i]->gone[at].item
        == start.timers[key].item && events[i]->gone[at].deadline_tick
        == start.timers[key].deadline_tick by {
        assert(event_done(moments[i], events[i], moments[i + 1]));
        let gone = events[i]->gone;
        assert(gone[at].id.value() == key);
        lemma_life(moments, events, key, i);
    }
    assert forall|i: int, j: int|
        0 <= i < j < events.len() && fires(#[trigger] events[i], key) implies !fires(
        #[trigger] events[j],
        key,
    ) by {
        lemma_gone_for_good(moments, events, key, i, j);
        if fires(events[j], key) {
            assert(event_done(moments[j], events[j], moments[j + 1]));
            lemma_fires(moments[j], events[j], moments[j + 1], key);
        }
    }
}

/// Two timers that are added one after the other at one tick, for one deadline, go
/// to one slot in that order.
pub proof fn law_added_later_stands_behind(
    before: Map<(int, int), Seq<u64>>,
    between: Map<(int, int), Seq<u64>>,
    after: Map<(int, int), Seq<u64>>,
    place: (int, int),
    left: u64,
    right: u64,
)
    requires
        slot_joined(before, between, place, left),
        slot_joined(between, after, place, right),
    ensures
        ahead(after, left, right),
{
    lemma_joined_keeps(before, between, place, left);
    lemma_joined_keeps(between, after, place, right);
    assert(stands(after, place, before[place].len() as int, left));
    assert(stands(after, place, between[place].len() as int, right));
}

/// Whether an advance goes tick by tick.
pub open spec fn goes_tick_by_tick<T>(before: Moment<T>, event: WheelEvent<T>) -> bool {
    (before.remainder + span(event)) / before.tick_nanos <= SMALL_ADVANCE_LIMIT
}

/// Two timers of one slot and one deadline fire in the order in which they stand in
/// the slot, in one advance, however many events come before it, as long as they
/// are neither cancelled nor rescheduled and the wheel goes tick by tick.
pub proof fn law_slot_order_is_firing_order<T>(
    moments: Seq<Moment<T>>,
    events: Seq<WheelEvent<T>>,
    left: u64,
    right: u64,
    count: int,
)
    requires
        wheel_run(moments, events),
        ahead(moments[0].slots, left, right),
        moments[0].timers.contains_key(left),
        moments[0].timers.contains_key(right),
        moments[0].timers[left].deadline_tick == moments[0].timers[right].deadline_tick,
        forall|i: int|
            0 <= i < events.len() ==> leaves_alone(#[trigger] events[i], left) && leaves_alone(
                events[i],
                right,
            ) && goes_tick_by_tick(moments[i], events[i]),
        forall|i: int| 0 <= i < moments.len() ==> slots_hold(#[trigger] moments[i]),
        0 <= count <= events.len(),
    ensures
        ({
            ||| {
                &&& ahead(moments[count].slots, left, right)
                &&& moments[count].timers.contains_key(left)
                &&& moments[count].timers.contains_key(right)
                &&& moments[count].timers[left] == moments[0].timers[left]
                &&& moments[count].timers[right] == moments[0].timers[right]
            }
            ||| exists|i: int|
                0 <= i < count && fires_in_order(#[trigger] events[i], left, right)
        }),
    decreases count,
{
    if count > 0 {
        let last = count - 1;
        let before = moments[last];
        let event = events[last];
        let after = moments[last + 1];
        law_slot_order_is_firing_order(moments, events, left, right, last);
        assert(event_done(before, event, after));
        if exists|i: int| 0 <= i < last && fires_in_order(#[trigger] events[i], left, right) {
            let i = choose|i: int| 0 <= i < last && fires_in_order(#[trigger] events[i], left, right);
            assert(fires_in_order(events[i], left, right));
        } else {
            match event {
                WheelEvent::Added { key, timer } => {
                    let place = place_in(before, timer.deadline_tick);
                    lemma_joined_keeps(before.slots, after.slots, place, key);
                },
                WheelEvent::Rescheduled { key, deadline_tick } => {
                    let place = place_in(before, deadline_tick);
                    let middle = choose|middle: Map<(int, int), Seq<u64>>| #[trigger]
                        slot_left(before.slots, middle, key) && slot_joined(
                            middle,
                            after.slots,
                            place,
                            key,
                        );
                    lemma_left_keeps(before.slots, middle, key);
                    lemma_joined_keeps(middle, after.slots, place, key);
                },
                WheelEvent::Cancelled { key } => {
                    lemma_left_keeps(before.slots, after.slots, key);
                },
                WheelEvent::Cleared => {},
                WheelEvent::Passed { gone, .. } => {
                    if ahead(after.slots, left, right) {
                        let (place, i, j) = choose|place: (int, int), i: int, j: int|
                            i < j && #[trigger] stands(after.slots, place, i, left) && #[trigger]
                            stands(after.slots, place, j, right);
                        assert(slots_hold(moments[count]));
                        assert(after.timers.contains_key(left));
                        assert(after.timers.contains_key(right));
                    } else {
                        assert(fired_before(gone, left, right));
                        assert(fires_in_order(events[last], left, right));
                    }
                },
            }
        }
    }
}

/// Who stands in a slot is a timer.
pub open spec fn slots_hold<T>(moment: Moment<T>) -> bool {
    forall|place: (int, int), at: int, key: u64| #[trigger]
        stands(moment.slots, place, at, key) ==> moment.timers.contains_key(key)
}

/// Whether both timers fire in an event, `left` before `right`.
pub open spec fn fires_in_order<T>(event: WheelEvent<T>, left: u64, right: u64) -> bool {
    event matches WheelEvent::Passed { gone, .. } && fired_before(gone, left, right)
}

} // verus!
