//! The timers of a connection.

use vstd::prelude::*;

use crate::duration::Duration;
use crate::reliable_core::config::{connection_wheel_slots, ConnectionConfig, ConnectionConfigError};
use crate::reliable_core::error::CoreError;
use crate::reliable_core::timer::TimerEvent;
use crate::time_wheel::config::config_error;
use crate::time_wheel::firing::fires_so;
use crate::time_wheel::shape::{
    blank_slots, place_at, shape_for, slots_emptied, slots_with, slots_without,
};
use crate::time_wheel::order::{in_storage_order, order_kept};
use crate::time_wheel::wheel::{
    beyond_reach, delay_ticks, in_firing_order, is_earliest, moved, nanos_until,
    SMALL_ADVANCE_LIMIT,
};
use crate::time_wheel::{Expired, MAX_NODES, Timer, TimerError, TimerId, Wheel};

verus! {

/// A wheel, and the timers of which there is one of each.
pub struct TimerState {
    pub wheel: Wheel<TimerEvent>,
    pub handshake: Option<TimerId>,
    pub ack: Option<TimerId>,
    pub keepalive: Option<TimerId>,
    pub idle: Option<TimerId>,
    pub close: Option<TimerId>,
}

/// The timers of a connection, as contracts see them.
#[verifier::ext_equal]
pub struct TimersView {
    pub timers: Map<u64, Timer<TimerEvent>>,
    /// The slots of the wheel, each with the numbers of its timers in order.
    pub slots: Map<(int, int), Seq<u64>>,
    pub tick: u64,
    pub remainder: nat,
    pub tick_nanos: nat,
    pub handshake: Option<TimerId>,
    pub ack: Option<TimerId>,
    pub keepalive: Option<TimerId>,
    pub idle: Option<TimerId>,
    pub close: Option<TimerId>,
}

impl View for TimerState {
    type V = TimersView;

    open spec fn view(&self) -> TimersView {
        TimersView {
            timers: self.timers(),
            slots: self.slots(),
            tick: self.wheel.tick(),
            remainder: self.wheel.remainder(),
            tick_nanos: self.wheel.tick_nanos(),
            handshake: self.handshake,
            ack: self.ack,
            keepalive: self.keepalive,
            idle: self.idle,
            close: self.close,
        }
    }
}

/// The tick at which a timer that is set now is due.
pub open spec fn due_tick(timers: TimersView, delay: Duration) -> nat {
    timers.tick as nat + delay_ticks(delay@, timers.remainder, timers.tick_nanos)
}

/// Why a timer cannot be set.
pub open spec fn timer_refused(timers: TimersView, delay: Duration) -> Option<CoreError> {
    if timers.timers.dom().len() >= MAX_NODES {
        Some(CoreError::Timer(TimerError::InvariantViolation))
    } else if due_tick(timers, delay) > u64::MAX {
        Some(CoreError::Timer(TimerError::DelayOverflow))
    } else {
        None
    }
}

/// The slot to which a timer goes that is due at this tick.
pub open spec fn place_of(timers: TimersView, deadline_tick: nat) -> (int, int) {
    place_at(shape_for(connection_wheel_slots()), timers.tick as nat, deadline_tick)
}

/// The timers with one more, which is new and goes to the end of its slot.
pub open spec fn with_timer(
    timers: TimersView,
    event: TimerEvent,
    delay: Duration,
    id: TimerId,
) -> TimersView {
    let due = due_tick(timers, delay);
    TimersView {
        timers: timers.timers.insert(
            id.value(),
            Timer { item: event, deadline_tick: due as u64 },
        ),
        slots: slots_with(timers.slots, place_of(timers, due), id.value()),
        ..timers
    }
}

/// The timers without the one of this number.
pub open spec fn cancelled(timers: TimersView, key: u64) -> TimersView {
    TimersView {
        timers: timers.timers.remove(key),
        slots: slots_without(timers.slots, key),
        ..timers
    }
}

/// The timers without the one that `slot` names.
pub open spec fn without(timers: TimersView, slot: Option<TimerId>) -> TimersView {
    match slot {
        Some(id) => cancelled(timers, id.value()),
        None => timers,
    }
}

/// The slots follow the clock, and timers fire in the order that they give: those of
/// one slot and one deadline in the order in which they stand there, or, after a
/// jump, all in the order of their storage.
pub open spec fn slots_follow(
    before: TimersView,
    after: TimersView,
    gone: Seq<Expired<TimerEvent>>,
    ticks: nat,
) -> bool {
    &&& fires_so(
        before.slots,
        before.timers,
        shape_for(connection_wheel_slots()),
        before.tick as nat,
        ticks,
        after.slots,
        gone,
    )
    &&& if ticks > SMALL_ADVANCE_LIMIT {
        in_storage_order(after.slots)
    } else {
        order_kept(before.slots, before.timers, after.slots, gone)
    }
}

/// What the fired timers carried.
pub open spec fn items_of(gone: Seq<Expired<TimerEvent>>) -> Seq<TimerEvent> {
    Seq::new(gone.len(), |i: int| gone[i].item)
}

impl TimerState {
    /// The wheel is right, and has the levels of a connection.
    pub open spec fn well_formed(&self) -> bool {
        &&& self.wheel.well_formed()
        &&& self.wheel.shape() == shape_for(connection_wheel_slots())
    }

    /// The slots of the wheel.
    pub open spec fn slots(&self) -> Map<(int, int), Seq<u64>> {
        self.wheel.slots()
    }

    /// The timers that are set.
    pub open spec fn timers(&self) -> Map<u64, Timer<TimerEvent>> {
        self.wheel.timers()
    }

    /// The clocks are the same.
    pub open spec fn same_clock(&self, other: &Self) -> bool {
        &&& self.wheel.tick() == other.wheel.tick()
        &&& self.wheel.remainder() == other.wheel.remainder()
        &&& self.wheel.tick_nanos() == other.wheel.tick_nanos()
    }

    /// The tick at which a timer that is set now is due.
    pub open spec fn due(&self, delay: Duration) -> nat {
        self.wheel.tick() as nat + delay_ticks(
            delay@,
            self.wheel.remainder(),
            self.wheel.tick_nanos(),
        )
    }

    /// Why a timer cannot be set: its tick cannot be expressed, or the wheel is
    /// full.
    pub open spec fn refuses(&self, delay: Duration) -> Option<TimerError> {
        if self.timers().dom().len() >= MAX_NODES {
            Some(TimerError::InvariantViolation)
        } else if self.due(delay) > u64::MAX {
            Some(TimerError::DelayOverflow)
        } else {
            None
        }
    }

    /// The timer `id` was set: it is new, and due after `delay`.
    pub open spec fn scheduled(
        &self,
        after: &Self,
        event: TimerEvent,
        delay: Duration,
        id: TimerId,
    ) -> bool {
        &&& self.refuses(delay) is None
        &&& !self.timers().contains_key(id.value())
        &&& after.timers() == self.timers().insert(
            id.value(),
            Timer { item: event, deadline_tick: self.due(delay) as u64 },
        )
        &&& after.slots() == slots_with(
            self.slots(),
            place_of(self@, self.due(delay)),
            id.value(),
        )
    }

    /// No timer is set.
    pub fn new(config: &ConnectionConfig) -> (result: Result<Self, CoreError>)
        ensures
            ({
                let error = config_error(config.clock_granularity@, connection_wheel_slots());
                match result {
                    Ok(state) => {
                        &&& error is None
                        &&& state.well_formed()
                        &&& state.timers() == Map::<u64, Timer<TimerEvent>>::empty()
                        &&& state.slots() == blank_slots(shape_for(connection_wheel_slots()))
                        &&& state.wheel.tick() == 0
                        &&& state.wheel.remainder() == 0
                        &&& state.wheel.tick_nanos() == config.clock_granularity@
                        &&& state.handshake is None
                        &&& state.ack is None
                        &&& state.keepalive is None
                        &&& state.idle is None
                        &&& state.close is None
                    },
                    Err(failure) => error is Some && failure == CoreError::InvalidConfig(
                        ConnectionConfigError::Wheel(error->0),
                    ),
                }
            }),
    {
        match config.wheel_config() {
            Ok(wheel_config) => Ok(
                TimerState {
                    wheel: Wheel::new(wheel_config),
                    handshake: None,
                    ack: None,
                    keepalive: None,
                    idle: None,
                    close: None,
                },
            ),
            Err(error) => Err(CoreError::InvalidConfig(error)),
        }
    }

    /// Moves the clock and gives the events of the timers that are then due.
    pub fn advance(&mut self, elapsed: Duration) -> (result: Result<Vec<TimerEvent>, CoreError>)
        requires
            old(self).well_formed(),
        ensures
            final(self).well_formed(),
            final(self).handshake == old(self).handshake,
            final(self).ack == old(self).ack,
            final(self).keepalive == old(self).keepalive,
            final(self).idle == old(self).idle,
            final(self).close == old(self).close,
            final(self).wheel.tick_nanos() == old(self).wheel.tick_nanos(),
            ({
                let total = old(self).wheel.remainder() + elapsed@;
                let ticks = total / old(self).wheel.tick_nanos();
                match result {
                    Ok(events) => {
                        &&& total <= u64::MAX
                        &&& old(self).wheel.tick() + ticks <= u64::MAX
                        &&& final(self).wheel.tick() == old(self).wheel.tick() + ticks
                        &&& final(self).wheel.remainder() == total % old(self).wheel.tick_nanos()
                        &&& exists|gone: Seq<Expired<TimerEvent>>| #[trigger]
                            moved(old(self).wheel.timers(), final(self).wheel.timers(), gone)
                                && in_firing_order(gone, ticks) && slots_follow(
                                old(self)@,
                                final(self)@,
                                gone,
                                ticks,
                            ) && events@ == items_of(gone)
                        &&& forall|key: u64| #[trigger]
                            old(self).timers().contains_key(key) ==> (final(self).timers().contains_key(key) <==> old(self).timers()[key].deadline_tick
                                > final(self).wheel.tick())
                    },
                    Err(error) => {
                        &&& final(self).timers() == old(self).timers()
                    &&& final(self).slots() == old(self).slots()
                        &&& final(self).same_clock(old(self))
                        &&& if total > u64::MAX {
                            error == CoreError::Timer(TimerError::ElapsedOverflow)
                        } else {
                            old(self).wheel.tick() + ticks > u64::MAX && error == CoreError::Timer(
                                TimerError::ClockOverflow,
                            )
                        }
                    },
                }
            }),
    {
        let mut expired: Vec<Expired<TimerEvent>> = Vec::new();
        match self.wheel.advance_by(elapsed, &mut expired) {
            Err(error) => Err(CoreError::Timer(error)),
            Ok(_) => {
                let ghost gone = expired@;
                assert(gone =~= expired@.subrange(0, expired@.len() as int));
                assert(moved(old(self).wheel.timers(), self.wheel.timers(), gone));
                let mut events: Vec<TimerEvent> = Vec::new();
                let mut index: usize = 0;
                while index < expired.len()
                    invariant
                        gone == expired@,
                        index <= gone.len(),
                        events@.len() == index,
                        forall|i: int| 0 <= i < index ==> (#[trigger] events@[i]) == gone[i].item,
                    decreases gone.len() - index,
                {
                    events.push(expired[index].item);
                    index = index + 1;
                }
                assert(events@ =~= items_of(gone));
                Ok(events)
            },
        }
    }

    /// The time left until the earliest timer is due.
    pub fn next_deadline(&self) -> (result: Result<Option<Duration>, CoreError>)
        requires
            self.well_formed(),
        ensures
            match result {
                Ok(None) => self.timers().dom().len() == 0,
                Ok(Some(left)) => self.timers().dom().len() > 0 && exists|deadline: u64| #[trigger]
                    is_earliest(self.wheel.timers(), deadline) && left@ == nanos_until(
                        deadline,
                        self.wheel.tick(),
                        self.wheel.remainder(),
                        self.wheel.tick_nanos(),
                    ),
                Err(error) => error == CoreError::Timer(TimerError::DeadlineOverflow),
            },
            result is Err <==> beyond_reach(
                self.wheel.timers(),
                self.wheel.tick(),
                self.wheel.remainder(),
                self.wheel.tick_nanos(),
            ),
    {
        match self.wheel.next_deadline() {
            Ok(left) => Ok(left),
            Err(error) => Err(CoreError::Timer(error)),
        }
    }

    /// Sets a timer.
    pub fn schedule(&mut self, event: TimerEvent, delay: Duration) -> (result: Result<
        TimerId,
        CoreError,
    >)
        requires
            old(self).well_formed(),
        ensures
            final(self).well_formed(),
            final(self).same_clock(old(self)),
            *final(self) == (TimerState { wheel: final(self).wheel, ..*old(self) }),
            match result {
                Ok(id) => old(self).scheduled(final(self), event, delay, id),
                Err(error) => old(self).refuses(delay) is Some && error == CoreError::Timer(
                    old(self).refuses(delay)->0,
                ) && final(self).timers() == old(self).timers() && final(self).slots() == old(self).slots(),
            },
    {
        if self.wheel.len() as u64 >= MAX_NODES {
            return Err(CoreError::Timer(TimerError::InvariantViolation));
        }
        match self.wheel.insert(event, delay) {
            Ok(id) => Ok(id),
            Err(error) => Err(CoreError::Timer(error)),
        }
    }

    /// Sets the timer of the handshake.
    pub fn schedule_handshake(&mut self, delay: Duration) -> (result: Result<(), CoreError>)
        requires
            old(self).well_formed(),
        ensures
            final(self).well_formed(),
            final(self).same_clock(old(self)),
            match result {
                Ok(_) => {
                    &&& final(self).handshake matches Some(id) && old(self).scheduled(
                        final(self),
                        TimerEvent::HandshakeTimeout,
                        delay,
                        id,
                    )
                    &&& *final(self) == (TimerState {
                        wheel: final(self).wheel,
                        handshake: final(self).handshake,
                        ..*old(self)
                    })
                },
                Err(error) => {
                    &&& old(self).refuses(delay) is Some
                    &&& error == CoreError::Timer(old(self).refuses(delay)->0)
                    &&& final(self).timers() == old(self).timers()
                    &&& final(self).slots() == old(self).slots()
                    &&& *final(self) == (TimerState { wheel: final(self).wheel, ..*old(self) })
                },
            },
    {
        match self.schedule(TimerEvent::HandshakeTimeout, delay) {
            Ok(id) => {
                self.handshake = Some(id);
                Ok(())
            },
            Err(error) => Err(error),
        }
    }

    /// Sets the timer of an acknowledgement, unless it is set.
    pub fn schedule_ack(&mut self, delay: Duration) -> (result: Result<(), CoreError>)
        requires
            old(self).well_formed(),
        ensures
            final(self).well_formed(),
            final(self).same_clock(old(self)),
            old(self).ack is Some ==> result is Ok && *final(self) == *old(self),
            old(self).ack is None ==> match result {
                Ok(_) => {
                    &&& final(self).ack matches Some(id) && old(self).scheduled(
                        final(self),
                        TimerEvent::AckDelay,
                        delay,
                        id,
                    )
                    &&& *final(self) == (TimerState {
                        wheel: final(self).wheel,
                        ack: final(self).ack,
                        ..*old(self)
                    })
                },
                Err(error) => {
                    &&& old(self).refuses(delay) is Some
                    &&& error == CoreError::Timer(old(self).refuses(delay)->0)
                    &&& final(self).timers() == old(self).timers()
                    &&& final(self).slots() == old(self).slots()
                    &&& *final(self) == (TimerState { wheel: final(self).wheel, ..*old(self) })
                },
            },
    {
        if self.ack.is_none() {
            match self.schedule(TimerEvent::AckDelay, delay) {
                Ok(id) => {
                    self.ack = Some(id);
                    Ok(())
                },
                Err(error) => Err(error),
            }
        } else {
            Ok(())
        }
    }

    /// Sets the timer that keeps the connection alive.
    pub fn schedule_keepalive(&mut self, delay: Duration) -> (result: Result<(), CoreError>)
        requires
            old(self).well_formed(),
        ensures
            final(self).well_formed(),
            final(self).same_clock(old(self)),
            match result {
                Ok(_) => {
                    &&& final(self).keepalive matches Some(id) && old(self).scheduled(
                        final(self),
                        TimerEvent::Keepalive,
                        delay,
                        id,
                    )
                    &&& *final(self) == (TimerState {
                        wheel: final(self).wheel,
                        keepalive: final(self).keepalive,
                        ..*old(self)
                    })
                },
                Err(error) => {
                    &&& old(self).refuses(delay) is Some
                    &&& error == CoreError::Timer(old(self).refuses(delay)->0)
                    &&& final(self).timers() == old(self).timers()
                    &&& final(self).slots() == old(self).slots()
                    &&& *final(self) == (TimerState { wheel: final(self).wheel, ..*old(self) })
                },
            },
    {
        match self.schedule(TimerEvent::Keepalive, delay) {
            Ok(id) => {
                self.keepalive = Some(id);
                Ok(())
            },
            Err(error) => Err(error),
        }
    }

    /// Sets the timer that ends an idle connection anew.
    pub fn schedule_idle(&mut self, delay: Duration) -> (result: Result<(), CoreError>)
        requires
            old(self).well_formed(),
        ensures
            final(self).well_formed(),
            final(self).same_clock(old(self)),
            ({
                let rest = without(old(self)@, old(self).idle);
                match result {
                    Ok(_) => {
                        &&& final(self).idle matches Some(id) && !rest.timers.contains_key(
                            id.value(),
                        ) && final(self)@ == (TimersView {
                            idle: Some(id),
                            ..with_timer(rest, TimerEvent::IdleTimeout, delay, id)
                        })
                        &&& rest.timers.dom().len() < MAX_NODES
                        &&& old(self).due(delay) <= u64::MAX
                        &&& *final(self) == (TimerState {
                            wheel: final(self).wheel,
                            idle: final(self).idle,
                            ..*old(self)
                        })
                    },
                    Err(error) => {
                        &&& final(self)@ == (TimersView { idle: None, ..rest })
                        &&& *final(self) == (TimerState {
                            wheel: final(self).wheel,
                            idle: None,
                            ..*old(self)
                        })
                        &&& if rest.timers.dom().len() >= MAX_NODES {
                            error == CoreError::Timer(TimerError::InvariantViolation)
                        } else {
                            old(self).due(delay) > u64::MAX && error == CoreError::Timer(
                                TimerError::DelayOverflow,
                            )
                        }
                    },
                }
            }),
    {
        Self::cancel_slot(&mut self.wheel, &mut self.idle);
        match self.schedule(TimerEvent::IdleTimeout, delay) {
            Ok(id) => {
                self.idle = Some(id);
                Ok(())
            },
            Err(error) => Err(error),
        }
    }

    /// Sets the timer that ends a closing connection.
    pub fn schedule_close(&mut self, delay: Duration) -> (result: Result<(), CoreError>)
        requires
            old(self).well_formed(),
        ensures
            final(self).well_formed(),
            final(self).same_clock(old(self)),
            match result {
                Ok(_) => {
                    &&& final(self).close matches Some(id) && old(self).scheduled(
                        final(self),
                        TimerEvent::CloseTimeout,
                        delay,
                        id,
                    )
                    &&& *final(self) == (TimerState {
                        wheel: final(self).wheel,
                        close: final(self).close,
                        ..*old(self)
                    })
                },
                Err(error) => {
                    &&& old(self).refuses(delay) is Some
                    &&& error == CoreError::Timer(old(self).refuses(delay)->0)
                    &&& final(self).timers() == old(self).timers()
                    &&& final(self).slots() == old(self).slots()
                    &&& *final(self) == (TimerState { wheel: final(self).wheel, ..*old(self) })
                },
            },
    {
        match self.schedule(TimerEvent::CloseTimeout, delay) {
            Ok(id) => {
                self.close = Some(id);
                Ok(())
            },
            Err(error) => Err(error),
        }
    }

    /// Takes a timer back, if it is set.
    pub fn cancel(&mut self, timer: TimerId)
        requires
            old(self).well_formed(),
        ensures
            final(self).well_formed(),
            final(self).same_clock(old(self)),
            final(self)@ == cancelled(old(self)@, timer.value()),
            *final(self) == (TimerState { wheel: final(self).wheel, ..*old(self) }),
    {
        let _ = self.wheel.cancel(timer);
    }

    /// Forgets the timer whose event has come.
    pub fn clear_slot(&mut self, event: TimerEvent)
        ensures
            *final(self) == (match event {
                TimerEvent::HandshakeTimeout => TimerState { handshake: None, ..*old(self) },
                TimerEvent::AckDelay => TimerState { ack: None, ..*old(self) },
                TimerEvent::Keepalive => TimerState { keepalive: None, ..*old(self) },
                TimerEvent::IdleTimeout => TimerState { idle: None, ..*old(self) },
                TimerEvent::CloseTimeout => TimerState { close: None, ..*old(self) },
                TimerEvent::Retransmit { .. } => *old(self),
            }),
    {
        match event {
            TimerEvent::HandshakeTimeout => {
                self.handshake = None;
            },
            TimerEvent::AckDelay => {
                self.ack = None;
            },
            TimerEvent::Keepalive => {
                self.keepalive = None;
            },
            TimerEvent::IdleTimeout => {
                self.idle = None;
            },
            TimerEvent::CloseTimeout => {
                self.close = None;
            },
            TimerEvent::Retransmit { .. } => {},
        }
    }

    /// Takes the timer of the acknowledgement back.
    pub fn cancel_ack(&mut self)
        requires
            old(self).well_formed(),
        ensures
            final(self).well_formed(),
            final(self).same_clock(old(self)),
            final(self)@ == (TimersView { ack: None, ..without(old(self)@, old(self).ack) }),
            *final(self) == (TimerState { wheel: final(self).wheel, ack: None, ..*old(self) }),
    {
        Self::cancel_slot(&mut self.wheel, &mut self.ack);
    }

    /// Takes the timer of the handshake back.
    pub fn cancel_handshake(&mut self)
        requires
            old(self).well_formed(),
        ensures
            final(self).well_formed(),
            final(self).same_clock(old(self)),
            final(self)@ == (TimersView { handshake: None, ..without(old(self)@, old(self).handshake) }),
            *final(self) == (TimerState {
                wheel: final(self).wheel,
                handshake: None,
                ..*old(self)
            }),
    {
        Self::cancel_slot(&mut self.wheel, &mut self.handshake);
    }

    /// Takes every timer back.
    pub fn cancel_all(&mut self)
        requires
            old(self).well_formed(),
        ensures
            final(self).well_formed(),
            final(self).same_clock(old(self)),
            final(self).timers() == Map::<u64, Timer<TimerEvent>>::empty(),
            final(self).slots() == slots_emptied(old(self).slots()),
            *final(self) == (TimerState {
                wheel: final(self).wheel,
                handshake: None,
                ack: None,
                keepalive: None,
                idle: None,
                close: None,
            }),
    {
        Self::cancel_slot(&mut self.wheel, &mut self.handshake);
        Self::cancel_slot(&mut self.wheel, &mut self.ack);
        Self::cancel_slot(&mut self.wheel, &mut self.keepalive);
        Self::cancel_slot(&mut self.wheel, &mut self.idle);
        Self::cancel_slot(&mut self.wheel, &mut self.close);
        let mut discarded: Vec<TimerEvent> = Vec::new();
        self.wheel.clear(&mut discarded);
        assert(self.slots() =~= slots_emptied(old(self).slots()));
    }

    /// Takes the timer that a slot names back.
    fn cancel_slot(wheel: &mut Wheel<TimerEvent>, slot: &mut Option<TimerId>)
        requires
            old(wheel).well_formed(),
        ensures
            final(wheel).well_formed(),
            final(wheel).tick() == old(wheel).tick(),
            final(wheel).remainder() == old(wheel).remainder(),
            final(wheel).tick_nanos() == old(wheel).tick_nanos(),
            final(wheel).shape() == old(wheel).shape(),
            match *old(slot) {
                Some(id) => {
                    &&& final(wheel).timers() == old(wheel).timers().remove(id.value())
                    &&& final(wheel).slots() == slots_without(old(wheel).slots(), id.value())
                },
                None => *final(wheel) == *old(wheel),
            },
            *final(slot) is None,
    {
        match slot.take() {
            Some(timer) => {
                let _ = wheel.cancel(timer);
            },
            None => {},
        }
    }
}

} // verus!
