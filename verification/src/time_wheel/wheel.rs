//! The wheel: timers that are added, moved, cancelled and fired.

use vstd::prelude::*;

use crate::duration::{Duration, MAX_NANOS};
use crate::time_wheel::config::{level_unit, WheelConfig};
use crate::time_wheel::deadline::{
    heap_covers, heap_ordered, heap_synced, lemma_root_is_least, DeadlineHeap, DeadlineNode,
};
use crate::time_wheel::error::TimerError;
use crate::time_wheel::firing::{
    fires_so, levels_run, numbers_of, settled_run, slot_run, ticks_run, Firing,
};
use crate::time_wheel::id::TimerId;
use crate::time_wheel::level::{
    lemma_levels_added, lemma_levels_empty, lemma_levels_hold, lemma_levels_kept,
    lemma_levels_listed, lemma_levels_one_list, lemma_levels_sound, Levels,
};
use crate::time_wheel::moment::{event_done, WheelEvent};
use crate::time_wheel::order::{
    chain_kept, in_storage_order, lemma_chain_done, lemma_chain_fires, lemma_chain_joins,
    lemma_joined_in_order, lemma_order_on, order_kept, slot_joined, slot_left, slot_moved, stands,
};
use crate::time_wheel::shape::{
    blank_slots, in_shape, place_at, shape_for, slots_emptied, slots_without, LevelShape,
};
use crate::time_wheel::table::{
    key_index, key_valid, key_version, next_version, table_versions, MAX_NODES, TaskNode, TaskTable,
};

verus! {

/// Number of ticks up to which a wheel advances tick by tick. For more it
/// places every timer anew.
pub const SMALL_ADVANCE_LIMIT: u64 = 4096;

/// A timer of the wheel, as contracts see it.
pub struct Timer<T> {
    /// What the timer carries.
    pub item: T,
    /// Tick at which it is due.
    pub deadline_tick: u64,
}

/// A timer that has fired.
#[derive(Debug)]
pub struct Expired<T> {
    /// Handle that the timer had.
    pub id: TimerId,
    /// What it carried.
    pub item: T,
    /// Tick at which it was due.
    pub deadline_tick: u64,
}

/// What an advance of the wheel did.
#[derive(Debug, Clone, Copy, PartialEq, Eq, Structural)]
pub struct AdvanceReport {
    /// Ticks by which the clock moved.
    pub elapsed_ticks: u64,
    /// Timers that fired.
    pub expired_count: usize,
    /// Whether the wheel placed every timer anew instead of going tick by tick.
    pub fast_forwarded: bool,
}

/// Number of times that `unit` has to be taken to reach `amount`.
pub open spec fn units_up(amount: nat, unit: nat) -> nat {
    if amount % unit == 0 {
        amount / unit
    } else {
        amount / unit + 1
    }
}

/// Ticks from now until a timer with this delay is due, when `remainder`
/// nanoseconds of the current tick have passed.
pub open spec fn delay_ticks(delay: nat, remainder: nat, tick_nanos: nat) -> nat {
    if delay == 0 {
        0
    } else {
        units_up(delay + remainder, tick_nanos)
    }
}

/// `gone` are the timers of `before` that are not in `after`, each once.
pub open spec fn moved<T>(
    before: Map<u64, Timer<T>>,
    after: Map<u64, Timer<T>>,
    gone: Seq<Expired<T>>,
) -> bool {
    &&& forall|i: int, j: int|
        0 <= i < j < gone.len() ==> (#[trigger] gone[i]).id.value() != (
        #[trigger] gone[j]).id.value()
    &&& forall|i: int|
        #![trigger gone[i]]
        0 <= i < gone.len() ==> {
            &&& before.contains_key(gone[i].id.value())
            &&& before[gone[i].id.value()] == (Timer {
                item: gone[i].item,
                deadline_tick: gone[i].deadline_tick,
            })
            &&& !after.contains_key(gone[i].id.value())
        }
    &&& forall|key: u64| #[trigger]
        after.contains_key(key) ==> before.contains_key(key) && after[key] == before[key]
    &&& forall|key: u64| #[trigger]
        before.contains_key(key) && !after.contains_key(key) ==> exists|i: int|
            0 <= i < gone.len() && (#[trigger] gone[i]).id.value() == key
}

/// The number that a slot and a version make.
pub open spec fn key_of(index: int, version: u32) -> u64 {
    (version * 0x1_0000_0000 + index) as u64
}

/// The versions are those that the keys name, and a slot whose version is odd has
/// its key.
pub open spec fn versions_match(keys: Set<u64>, versions: Seq<u32>) -> bool {
    &&& versions.len() <= 0x1_0000_0000
    &&& forall|key: u64| #[trigger]
        keys.contains(key) ==> key_valid(key) && key_index(key) < versions.len()
            && versions[key_index(key) as int] == key_version(key)
    &&& forall|i: int|
        0 <= i < versions.len() && #[trigger] versions[i] % 2 == 1 ==> keys.contains(
            key_of(i, versions[i]),
        )
}

/// Slots were vacated: the version of each went up by one, if it changed.
pub open spec fn vacated(before: Seq<u32>, after: Seq<u32>) -> bool {
    &&& after.len() == before.len()
    &&& forall|i: int|
        0 <= i < before.len() ==> #[trigger] after[i] == before[i] || (before[i] % 2 == 1
            && after[i] == next_version(before[i]))
}

/// A slot was taken for a timer: a vacant one, whose version goes up by one, or a
/// new one.
pub open spec fn slot_taken(before: Seq<u32>, after: Seq<u32>, key: u64) -> bool {
    let index = key_index(key) as int;
    if index < before.len() {
        &&& before[index] % 2 == 0
        &&& key_version(key) == before[index] + 1
        &&& after == before.update(index, (before[index] + 1) as u32)
    } else {
        &&& index == before.len()
        &&& key_version(key) == 1
        &&& after == before.push(1)
    }
}

/// What tells the handles of a wheel apart: the numbers of its timers, and the
/// versions of the slots that they are stored in.
pub struct Handles {
    pub keys: Set<u64>,
    pub versions: Seq<u32>,
}

/// What an operation does to the handles: a timer gets a slot, or timers leave
/// theirs, or nothing changes.
pub open spec fn handles_step(before: Handles, after: Handles) -> bool {
    ||| exists|key: u64| #[trigger]
        slot_taken(before.versions, after.versions, key) && after.keys == before.keys.insert(key)
    ||| vacated(before.versions, after.versions) && after.keys.subset_of(before.keys)
}

/// A number is made of its slot and its version.
pub proof fn lemma_key_parts(key: u64)
    ensures
        key_index(key) < 0x1_0000_0000,
        key_version(key) <= u32::MAX,
        key_of(key_index(key) as int, key_version(key) as u32) == key,
{
}

/// The slot and the version of a number that they make.
pub proof fn lemma_key_of(index: int, version: u32)
    requires
        0 <= index < 0x1_0000_0000,
    ensures
        key_index(key_of(index, version)) == index,
        key_version(key_of(index, version)) == version,
{
}

/// Vacating twice vacates.
proof fn lemma_vacated_on(first: Seq<u32>, before: Seq<u32>, after: Seq<u32>)
    requires
        vacated(first, before),
        vacated(before, after),
    ensures
        vacated(first, after),
{
    assert forall|i: int| 0 <= i < first.len() implies #[trigger] after[i] == first[i] || (first[i]
        % 2 == 1 && after[i] == next_version(first[i])) by {
        assert(before[i] == first[i] || before[i] == next_version(first[i]));
    }
}

/// The versions still match once a slot is taken for a key.
proof fn lemma_match_taken(keys: Set<u64>, before: Seq<u32>, after: Seq<u32>, key: u64)
    requires
        versions_match(keys, before),
        slot_taken(before, after, key),
        forall|other: u64| #[trigger] keys.contains(other) ==> key_index(other) != key_index(key),
    ensures
        versions_match(keys.insert(key), after),
{
    lemma_key_parts(key);
    assert forall|i: int|
        0 <= i < after.len() && #[trigger] after[i] % 2 == 1 implies keys.insert(key).contains(
        key_of(i, after[i]),
    ) by {
        if i != key_index(key) {
            assert(after[i] == before[i]);
        }
    }
}

/// The versions still match once a key is gone and its slot vacant.
proof fn lemma_match_vacated(keys: Set<u64>, before: Seq<u32>, after: Seq<u32>, key: u64)
    requires
        versions_match(keys, before),
        keys.contains(key),
        forall|other: u64| #[trigger]
            keys.contains(other) && key_index(other) == key_index(key) ==> other == key,
        after == before.update(
            key_index(key) as int,
            next_version(before[key_index(key) as int]),
        ),
    ensures
        versions_match(keys.remove(key), after),
        vacated(before, after),
{
    let index = key_index(key) as int;
    assert(before[index] % 2 == 1);
    assert(after[index] % 2 == 0);
    assert forall|i: int|
        0 <= i < after.len() && #[trigger] after[i] % 2 == 1 implies keys.remove(key).contains(
        key_of(i, after[i]),
    ) by {
        assert(after[i] == before[i]);
        lemma_key_of(i, before[i]);
    }
}

/// The order in which timers fire that are due once `ticks` have passed: that of
/// their deadlines, or, after a jump, that of their storage.
pub open spec fn in_firing_order<T>(gone: Seq<Expired<T>>, ticks: nat) -> bool {
    if ticks > SMALL_ADVANCE_LIMIT {
        forall|i: int, j: int|
            0 <= i < j < gone.len() ==> key_index((#[trigger] gone[i]).id.value()) < key_index(
                (#[trigger] gone[j]).id.value(),
            )
    } else {
        forall|i: int, j: int|
            0 <= i < j < gone.len() ==> (#[trigger] gone[i]).deadline_tick <= (
            #[trigger] gone[j]).deadline_tick
    }
}

/// Whether `deadline` is the earliest deadline of the timers.
pub open spec fn is_earliest<T>(timers: Map<u64, Timer<T>>, deadline: u64) -> bool {
    &&& exists|key: u64| #[trigger]
        timers.contains_key(key) && timers[key].deadline_tick == deadline
    &&& forall|key: u64| #[trigger]
        timers.contains_key(key) ==> deadline <= timers[key].deadline_tick
}

/// Nanoseconds from now until the tick `deadline` begins.
pub open spec fn nanos_until(deadline: u64, tick: u64, remainder: nat, tick_nanos: nat) -> nat {
    if deadline <= tick {
        0
    } else {
        ((deadline - tick) * tick_nanos - remainder) as nat
    }
}

/// Whether the earliest timer is due later than the longest span from now.
pub open spec fn beyond_reach<T>(
    timers: Map<u64, Timer<T>>,
    tick: u64,
    remainder: nat,
    tick_nanos: nat,
) -> bool {
    exists|deadline: u64| #[trigger]
        is_earliest(timers, deadline) && nanos_until(deadline, tick, remainder, tick_nanos)
            > MAX_NANOS
}

/// The node is in the slot of its deadline; on a higher level that slot is
/// reached after `now`, or, below the level `top`, at `now`.
spec fn placed_node(node: TaskNode, shape: Seq<LevelShape>, now: nat, top: int) -> bool {
    let level = node.level as int;
    let unit = shape[level].unit;
    let due = node.deadline_tick as nat;
    &&& node.slot == (due / unit) % shape[level].count
    &&& level > 0 ==> (due / unit > now / unit || (level < top && now % unit == 0 && due / unit
        == now / unit))
}

/// Every timer but those of `out` is where it will be found in time.
spec fn placed(
    nodes: Map<u64, TaskNode>,
    shape: Seq<LevelShape>,
    now: nat,
    top: int,
    out: Set<u64>,
) -> bool {
    forall|key: u64|
        #![trigger nodes[key]]
        nodes.contains_key(key) && !out.contains(key) ==> {
            &&& placed_node(nodes[key], shape, now, top)
            &&& nodes[key].deadline_tick >= now
        }
}

/// What left stays gone: two moves in a row are one move.
proof fn lemma_moved_on<T>(
    first: Map<u64, Timer<T>>,
    second: Map<u64, Timer<T>>,
    third: Map<u64, Timer<T>>,
    gone: Seq<Expired<T>>,
    more: Seq<Expired<T>>,
)
    requires
        moved(first, second, gone),
        moved(second, third, more),
    ensures
        moved(first, third, gone + more),
{
    let all = gone + more;
    assert forall|i: int, j: int| 0 <= i < j < all.len() implies (#[trigger] all[i]).id.value()
        != (#[trigger] all[j]).id.value() by {
        if i < gone.len() && j >= gone.len() {
            assert(all[i] == gone[i]);
            assert(all[j] == more[j - gone.len()]);
            assert(second.contains_key(more[j - gone.len()].id.value()));
        } else if i >= gone.len() {
            assert(all[i] == more[i - gone.len()]);
            assert(all[j] == more[j - gone.len()]);
        } else {
            assert(all[i] == gone[i]);
            assert(all[j] == gone[j]);
        }
    }
    assert forall|i: int| #![trigger all[i]] 0 <= i < all.len() implies {
        &&& first.contains_key(all[i].id.value())
        &&& first[all[i].id.value()] == (Timer {
            item: all[i].item,
            deadline_tick: all[i].deadline_tick,
        })
        &&& !third.contains_key(all[i].id.value())
    } by {
        if i < gone.len() {
            assert(all[i] == gone[i]);
        } else {
            assert(all[i] == more[i - gone.len()]);
            assert(second.contains_key(all[i].id.value()));
        }
    }
    assert forall|key: u64| #[trigger]
        third.contains_key(key) implies first.contains_key(key) && third[key] == first[key] by {
        assert(second.contains_key(key));
    }
    assert forall|key: u64| #[trigger]
        first.contains_key(key) && !third.contains_key(key) implies exists|i: int|
        0 <= i < all.len() && (#[trigger] all[i]).id.value() == key by {
        if second.contains_key(key) {
            let j = choose|j: int| 0 <= j < more.len() && (#[trigger] more[j]).id.value() == key;
            assert(all[gone.len() + j] == more[j]);
        } else {
            let i = choose|i: int| 0 <= i < gone.len() && (#[trigger] gone[i]).id.value() == key;
            assert(all[i] == gone[i]);
        }
    }
}

/// Later deadlines are never in an earlier slot.
proof fn lemma_units_grow(low: nat, high: nat, unit: nat)
    requires
        unit >= 1,
        high >= low + unit,
    ensures
        high / unit > low / unit,
{
    vstd::arithmetic::div_mod::lemma_div_is_ordered((low + unit) as int, high as int, unit as int);
    vstd::arithmetic::div_mod::lemma_div_plus_one(low as int, unit as int);
}

/// The lists of the slots that there are.
spec fn slots_of(levels: Levels) -> Map<(int, int), Seq<u64>> {
    Map::new(
        |place: (int, int)| in_shape(levels.shape(), place.0, place.1),
        |place: (int, int)| levels.lists()[place],
    )
}

/// Who stands in a list is a timer of the wheel.
proof fn lemma_standing(levels: Levels, nodes: Map<u64, TaskNode>, out: Set<u64>)
    requires
        levels.well_formed(nodes, out),
    ensures
        forall|place: (int, int), at: int, key: u64| #[trigger]
            stands(slots_of(levels), place, at, key) ==> nodes.contains_key(key) && !out.contains(
                key,
            ),
{
    assert forall|place: (int, int), at: int, key: u64| #[trigger]
        stands(slots_of(levels), place, at, key) implies nodes.contains_key(key) && !out.contains(
        key,
    ) by {
        lemma_levels_listed(levels, nodes, out, place.0, place.1, at);
    }
}

/// The slots without a timer: those of the others, and its own without it.
proof fn lemma_slots_without(levels: Levels, nodes: Map<u64, TaskNode>, key: u64)
    requires
        levels.well_formed(nodes, Set::empty()),
    ensures
        !nodes.contains_key(key) ==> slots_without(slots_of(levels), key) == slots_of(levels),
        nodes.contains_key(key) ==> ({
            let place = (nodes[key].level as int, nodes[key].slot as int);
            let list = levels.lists()[place];
            slots_without(slots_of(levels), key) == slots_of(levels).insert(
                place,
                list.remove(list.index_of(key)),
            )
        }),
{
    let slots = slots_of(levels);
    let rest = slots_without(slots, key);
    assert forall|place: (int, int)| #[trigger]
        slots.contains_key(place) && slots[place].contains(key) implies nodes.contains_key(key)
        && place == (nodes[key].level as int, nodes[key].slot as int) by {
        lemma_levels_one_list(levels, nodes, Set::empty(), place.0, place.1, key);
    }
    if nodes.contains_key(key) {
        let own = (nodes[key].level as int, nodes[key].slot as int);
        lemma_levels_hold(levels, nodes, Set::empty(), key);
        assert(slots.contains_key(own));
        let list = levels.lists()[own];
        assert(rest =~= slots.insert(own, list.remove(list.index_of(key))));
    } else {
        assert(rest =~= slots);
    }
}

/// A timer that was unlinked has left its slot.
proof fn lemma_unlinked_slot(
    levels: Levels,
    after: Map<(int, int), Seq<u64>>,
    node: TaskNode,
    key: u64,
)
    requires
        ({
            let place = (node.level as int, node.slot as int);
            let list = levels.lists()[place];
            let at = list.index_of(key);
            &&& in_shape(levels.shape(), place.0, place.1)
            &&& 0 <= at < list.len() && list[at] == key
            &&& after =~= slots_of(levels).insert(place, list.remove(at))
        }),
    ensures
        slot_left(slots_of(levels), after, key),
{
    let place = (node.level as int, node.slot as int);
    assert(stands(slots_of(levels), place, levels.lists()[place].index_of(key), key));
}

/// A wheel of timers that carry a `T`.
pub struct Wheel<T> {
    tasks: TaskTable,
    items: Vec<Option<T>>,
    deadline_heap: DeadlineHeap,
    levels: Levels,
    current_tick: u64,
    remainder_nanos: u64,
    base_tick_nanos: u64,
}

impl<T> Wheel<T> {
    /// The timers of the wheel, under the numbers of their handles.
    pub closed spec fn timers(&self) -> Map<u64, Timer<T>> {
        Map::new(
            |key: u64| self.tasks@.contains_key(key),
            |key: u64|
                Timer {
                    item: self.items@[key_index(key) as int]->0,
                    deadline_tick: self.tasks@[key].deadline_tick,
                },
        )
    }

    /// The clock of the wheel.
    pub closed spec fn tick(&self) -> u64 {
        self.current_tick
    }

    /// Nanoseconds that have passed since the clock last moved.
    pub closed spec fn remainder(&self) -> nat {
        self.remainder_nanos as nat
    }

    /// Length of a tick in nanoseconds.
    pub closed spec fn tick_nanos(&self) -> nat {
        self.base_tick_nanos as nat
    }

    /// The versions of the slots that the timers are stored in.
    pub closed spec fn versions(&self) -> Seq<u32> {
        table_versions(self.tasks)
    }

    /// The numbers of the levels.
    pub closed spec fn shape(&self) -> Seq<LevelShape> {
        self.levels.shape()
    }

    /// The slots of the wheel, each with the numbers of its timers in order.
    pub closed spec fn slots(&self) -> Map<(int, int), Seq<u64>> {
        slots_of(self.levels)
    }

    /// The slot to which a timer goes that is due at this tick.
    pub open spec fn place_of(&self, deadline_tick: u64) -> (int, int) {
        place_at(self.shape(), self.tick() as nat, deadline_tick as nat)
    }

    /// The handles of the wheel.
    pub open spec fn handles(&self) -> Handles {
        Handles { keys: self.timers().dom(), versions: self.versions() }
    }

    /// Every node has its item, and the versions are those of the keys.
    spec fn stored(&self) -> bool {
        &&& self.tasks@.dom().finite()
        &&& versions_match(self.tasks@.dom(), self.versions())
        &&& forall|key: u64| #[trigger]
            self.tasks@.contains_key(key) ==> {
                &&& key_valid(key)
                &&& key_index(key) < self.items@.len()
                &&& self.items@[key_index(key) as int] is Some
            }
        &&& forall|left: u64, right: u64| #[trigger]
            self.tasks@.contains_key(left) && #[trigger] self.tasks@.contains_key(right)
                && key_index(left) == key_index(right) ==> left == right
    }

    /// The heap holds every timer.
    spec fn heap_ok(&self) -> bool {
        &&& heap_ordered(self.deadline_heap@)
        &&& heap_synced(self.deadline_heap@, self.tasks@)
        &&& heap_covers(self.deadline_heap@, self.tasks@, Set::empty())
    }

    /// All but the timers of `out` are in their slots.
    spec fn settled(&self, top: int, out: Set<u64>) -> bool {
        &&& self.stored()
        &&& self.heap_ok()
        &&& self.levels.well_formed(self.tasks@, out)
        &&& placed(self.tasks@, self.levels.shape(), self.current_tick as nat, top, out)
        &&& self.remainder_nanos < self.base_tick_nanos
    }

    /// The wheel is consistent: its tables agree and every timer will be found.
    pub closed spec fn well_formed(&self) -> bool {
        self.settled(0, Set::empty())
    }

    /// What has passed since the clock last moved is less than a tick.
    pub proof fn lemma_remainder_is_short(&self)
        requires
            self.well_formed(),
        ensures
            self.remainder() < self.tick_nanos(),
    {
    }

    /// There are finitely many timers, and the versions of the slots are those of
    /// the timers in them.
    pub proof fn lemma_versions(&self)
        requires
            self.well_formed(),
        ensures
            self.timers().dom().finite(),
            versions_match(self.handles().keys, self.handles().versions),
    {
        self.lemma_timer_keys();
    }

    /// The timers are those that stand in the slots.
    pub proof fn lemma_slots_hold_the_timers(&self)
        requires
            self.well_formed(),
        ensures
            forall|place: (int, int), at: int, key: u64| #[trigger]
                stands(self.slots(), place, at, key) ==> self.timers().contains_key(key),
            forall|key: u64| #[trigger]
                self.timers().contains_key(key) ==> exists|place: (int, int), at: int| #[trigger]
                    stands(self.slots(), place, at, key),
    {
        self.lemma_slots_timed(0);
        assert forall|key: u64| #[trigger] self.timers().contains_key(key) implies exists|
            place: (int, int),
            at: int,
        | #[trigger]
            stands(self.slots(), place, at, key) by {
            lemma_levels_hold(self.levels, self.tasks@, Set::empty(), key);
            let place = (self.tasks@[key].level as int, self.tasks@[key].slot as int);
            let at = self.levels.lists()[place].index_of(key);
            assert(stands(self.slots(), place, at, key));
        }
    }

    /// Nothing but the timers differs.
    spec fn same_clock(&self, other: &Self) -> bool {
        &&& self.current_tick == other.current_tick
        &&& self.remainder_nanos == other.remainder_nanos
        &&& self.base_tick_nanos == other.base_tick_nanos
        &&& self.levels.shape() == other.levels.shape()
    }

    /// The keys of the timers are the keys of the table.
    proof fn lemma_timer_keys(&self)
        ensures
            self.timers().dom() == self.tasks@.dom(),
    {
        assert(self.timers().dom() =~= self.tasks@.dom());
    }

    /// Who stands in a slot is a timer.
    proof fn lemma_slots_timed(&self, top: int)
        requires
            self.settled(top, Set::empty()),
        ensures
            forall|place: (int, int), at: int, key: u64| #[trigger]
                stands(self.slots(), place, at, key) ==> self.timers().contains_key(key),
    {
        lemma_standing(self.levels, self.tasks@, Set::empty());
    }

    /// An empty wheel of the given shape.
    pub fn new(config: WheelConfig) -> (wheel: Self)
        ensures
            wheel.well_formed(),
            wheel.timers() == Map::<u64, Timer<T>>::empty(),
            wheel.tick() == 0,
            wheel.remainder() == 0,
            wheel.tick_nanos() == config.tick_nanos(),
            wheel.versions() == seq![0u32],
            wheel.shape() == shape_for(config.slot_counts()),
            wheel.slots() == blank_slots(wheel.shape()),
    {
        let wheel = Wheel {
            tasks: TaskTable::new(),
            items: Vec::new(),
            deadline_heap: DeadlineHeap::new(),
            levels: Levels::new(&config),
            current_tick: 0,
            remainder_nanos: 0,
            base_tick_nanos: config.base_tick_nanos(),
        };
        proof {
            assert(wheel.timers() =~= Map::<u64, Timer<T>>::empty());
            lemma_standing(wheel.levels, wheel.tasks@, Set::empty());
            lemma_levels_sound(wheel.levels, wheel.tasks@, Set::empty());
            let counts = config.slot_counts();
            assert forall|level: int| 0 <= level < counts.len() implies #[trigger] wheel.shape()[level]
                == shape_for(counts)[level] by {
                assert(level_unit(counts, level + 1) == level_unit(counts, level)
                    * counts[level] as nat);
            }
            assert(wheel.shape() =~= shape_for(counts));
            assert forall|place: (int, int)| #[trigger]
                wheel.slots().contains_key(place) implies wheel.slots()[place] =~= Seq::<
                u64,
            >::empty() by {
                if wheel.slots()[place].len() > 0 {
                    assert(stands(wheel.slots(), place, 0, wheel.slots()[place][0]));
                }
            }
            assert(wheel.slots() =~= blank_slots(wheel.shape()));
        }
        wheel
    }

    /// Adds a timer that is due after `delay`, rounded up to whole ticks.
    pub fn insert(&mut self, item: T, delay: Duration) -> (result: Result<TimerId, TimerError>)
        requires
            old(self).well_formed(),
            old(self).timers().dom().len() < MAX_NODES,
        ensures
            final(self).well_formed(),
            final(self).tick() == old(self).tick(),
            final(self).remainder() == old(self).remainder(),
            final(self).tick_nanos() == old(self).tick_nanos(),
            handles_step(old(self).handles(), final(self).handles()),
            final(self).shape() == old(self).shape(),
            ({
                let deadline = old(self).tick() + delay_ticks(
                    delay@,
                    old(self).remainder(),
                    old(self).tick_nanos(),
                );
                match result {
                    Ok(id) => {
                        &&& deadline <= u64::MAX
                        &&& !old(self).timers().contains_key(id.value())
                        &&& final(self).timers() == old(self).timers().insert(
                            id.value(),
                            Timer { item, deadline_tick: deadline as u64 },
                        )
                        &&& slot_taken(old(self).versions(), final(self).versions(), id.value())
                        &&& slot_joined(
                            old(self).slots(),
                            final(self).slots(),
                            old(self).place_of(deadline as u64),
                            id.value(),
                        )
                        &&& event_done(
                            old(self).moment(),
                            WheelEvent::Added {
                                key: id.value(),
                                timer: Timer { item, deadline_tick: deadline as u64 },
                            },
                            final(self).moment(),
                        )
                    },
                    Err(error) => {
                        &&& deadline > u64::MAX
                        &&& error == TimerError::DelayOverflow
                        &&& final(self).moment() == old(self).moment()
                    },
                }
            }),
    {
        proof {
            self.lemma_timer_keys();
        }
        let deadline_tick: u64 = match self.deadline_after(delay) {
            Ok(deadline_tick) => deadline_tick,
            Err(error) => {
                return Err(error);
            },
        };
        let ghost nodes_before = self.tasks@;
        let ghost items_before = self.items@;
        let ghost heap_before = self.deadline_heap@;
        let key: u64 = self.tasks.insert(
            TaskNode { deadline_tick, level: 0, slot: 0, prev: None, next: None, heap_index: 0 },
        );
        self.store_item(key, item);
        let ghost out = set![key];
        let ghost nodes_added = self.tasks@;
        proof {
            assert forall|k: u64| #[trigger] nodes_before.contains_key(k) implies k != key by {}
            lemma_match_taken(nodes_before.dom(), old(self).versions(), self.versions(), key);
            lemma_levels_added(self.levels, nodes_before, nodes_added, key);
            lemma_levels_sound(self.levels, nodes_added, out);
        }
        let (level, slot) = self.levels.locate(self.current_tick, deadline_tick);
        self.levels.link(&mut self.tasks, key, level, slot, Ghost(out));
        proof {
            let nodes = self.tasks@;
            assert(out.remove(key) =~= Set::empty());
            assert forall|i: int| 0 <= i < heap_before.len() implies (#[trigger] heap_before[i]).key
                != key by {
                assert(nodes_before.contains_key(heap_before[i].key));
            }
            assert(heap_synced(heap_before, nodes)) by {
                assert forall|i: int|
                    #![trigger heap_before[i]]
                    0 <= i < heap_before.len() implies {
                    &&& nodes.contains_key(heap_before[i].key)
                    &&& nodes[heap_before[i].key].heap_index == i
                    &&& nodes[heap_before[i].key].deadline_tick == heap_before[i].deadline_tick
                } by {
                    assert(nodes_added[heap_before[i].key] == nodes_before[heap_before[i].key]);
                }
            }
            assert(heap_covers(heap_before, nodes, out)) by {
                assert forall|k: u64|
                    #![trigger nodes[k]]
                    nodes.contains_key(k) && !out.contains(k) implies {
                    &&& nodes[k].heap_index < heap_before.len()
                    &&& heap_before[nodes[k].heap_index as int].key == k
                } by {
                    assert(nodes_added[k] == nodes_before[k]);
                }
            }
        }
        let ghost nodes_linked = self.tasks@;
        self.deadline_heap.insert(key, deadline_tick, &mut self.tasks);
        proof {
            let nodes = self.tasks@;
            let shape = self.levels.shape();
            lemma_levels_kept(self.levels, nodes_linked, nodes, Set::empty(), Set::empty());
            assert(placed(nodes, shape, self.current_tick as nat, 0, Set::empty())) by {
                assert forall|k: u64| #![trigger nodes[k]] nodes.contains_key(k) implies {
                    &&& placed_node(nodes[k], shape, self.current_tick as nat, 0)
                    &&& nodes[k].deadline_tick >= self.current_tick
                } by {
                    assert(nodes_linked.contains_key(k));
                    if k == key {
                        lemma_levels_sound(self.levels, nodes, Set::empty());
                        if level > 0 {
                            assert(shape[level as int].unit >= 1);
                            lemma_units_grow(
                                self.current_tick as nat,
                                deadline_tick as nat,
                                shape[level as int].unit,
                            );
                        }
                    } else {
                        assert(nodes_added[k] == nodes_before[k]);
                        assert(nodes_linked[k].level == nodes_before[k].level);
                        assert(placed_node(nodes_before[k], shape, self.current_tick as nat, 0));
                    }
                }
            }
            assert(self.stored()) by {
                assert(nodes.dom() =~= nodes_before.dom().insert(key));
            }
            assert(self.timers() =~= old(self).timers().insert(
                key,
                Timer { item, deadline_tick },
            )) by {
                assert forall|k: u64| #[trigger] self.timers().contains_key(k) implies self.timers()[k]
                    == old(self).timers().insert(key, Timer { item, deadline_tick })[k] by {
                    if k != key {
                        assert(nodes_before.contains_key(k));
                        assert(key_index(k) != key_index(key));
                        assert(nodes_added[k] == nodes_before[k]);
                        assert(nodes_linked[k].deadline_tick == nodes_before[k].deadline_tick);
                    }
                }
            }
            assert(self.timers().dom() =~= old(self).timers().dom().insert(key));
            assert(slot_taken(old(self).versions(), self.versions(), key));
            let place = old(self).place_of(deadline_tick);
            assert(self.slots() =~= old(self).slots().insert(
                place,
                old(self).slots()[place].push(key),
            ));
        }
        Ok(TimerId::from_key(key))
    }

    /// Gives a timer another delay, counted from now.
    pub fn reschedule(&mut self, id: TimerId, delay: Duration) -> (result: Result<(), TimerError>)
        requires
            old(self).well_formed(),
        ensures
            final(self).well_formed(),
            final(self).tick() == old(self).tick(),
            final(self).remainder() == old(self).remainder(),
            final(self).tick_nanos() == old(self).tick_nanos(),
            handles_step(old(self).handles(), final(self).handles()),
            final(self).shape() == old(self).shape(),
            final(self).versions() == old(self).versions(),
            ({
                let deadline = old(self).tick() + delay_ticks(
                    delay@,
                    old(self).remainder(),
                    old(self).tick_nanos(),
                );
                match result {
                    Ok(_) => {
                        &&& deadline <= u64::MAX
                        &&& old(self).timers().contains_key(id.value())
                        &&& final(self).timers() == old(self).timers().insert(
                            id.value(),
                            Timer {
                                item: old(self).timers()[id.value()].item,
                                deadline_tick: deadline as u64,
                            },
                        )
                        &&& slot_moved(
                            old(self).slots(),
                            final(self).slots(),
                            old(self).place_of(deadline as u64),
                            id.value(),
                        )
                        &&& event_done(
                            old(self).moment(),
                            WheelEvent::Rescheduled {
                                key: id.value(),
                                deadline_tick: deadline as u64,
                            },
                            final(self).moment(),
                        )
                    },
                    Err(error) => {
                        &&& final(self).moment() == old(self).moment()
                        &&& if old(self).timers().contains_key(id.value()) {
                            deadline > u64::MAX && error == TimerError::DelayOverflow
                        } else {
                            error == TimerError::StaleTimerId
                        }
                    },
                }
            }),
    {
        let key: u64 = id.key();
        proof {
            self.lemma_timer_keys();
        }
        if self.tasks.get(key).is_none() {
            return Err(TimerError::StaleTimerId);
        }
        let deadline_tick: u64 = match self.deadline_after(delay) {
            Ok(deadline_tick) => deadline_tick,
            Err(error) => {
                return Err(error);
            },
        };
        let ghost nodes_before = self.tasks@;
        let ghost heap_before = self.deadline_heap@;
        let ghost shape = self.levels.shape();
        self.levels.unlink(&mut self.tasks, key, Ghost(Set::empty()));
        let ghost nodes_unlinked = self.tasks@;
        let ghost slots_unlinked = self.slots();
        let ghost out = Set::empty().insert(key);
        let node = self.tasks.get_mut(key);
        node.deadline_tick = deadline_tick;
        let heap_index: usize = node.heap_index;
        proof {
            lemma_levels_kept(self.levels, nodes_unlinked, self.tasks@, out, out);
            lemma_levels_sound(self.levels, self.tasks@, out);
        }
        let ghost nodes_changed = self.tasks@;
        let (level, slot) = self.levels.locate(self.current_tick, deadline_tick);
        self.levels.link(&mut self.tasks, key, level, slot, Ghost(out));
        let ghost nodes_linked = self.tasks@;
        proof {
            assert(out.remove(key) =~= Set::empty());
            assert(heap_index == nodes_before[key].heap_index);
            assert(heap_before[heap_index as int].key == key);
            let expected = heap_before.update(
                heap_index as int,
                DeadlineNode { key, deadline_tick },
            );
            assert forall|i: int| #![trigger expected[i]] 0 <= i < expected.len() implies {
                &&& nodes_linked.contains_key(expected[i].key)
                &&& nodes_linked[expected[i].key].heap_index == i
                &&& nodes_linked[expected[i].key].deadline_tick == expected[i].deadline_tick
            } by {
                assert(nodes_before[heap_before[i].key].heap_index == i);
                let k = expected[i].key;
                assert(k == heap_before[i].key);
                assert(nodes_unlinked[k].heap_index == nodes_before[k].heap_index);
                assert(nodes_changed[k].heap_index == nodes_before[k].heap_index);
            }
            assert forall|k: u64|
                #![trigger nodes_linked[k]]
                nodes_linked.contains_key(k) implies {
                &&& nodes_linked[k].heap_index < heap_before.len()
                &&& heap_before[nodes_linked[k].heap_index as int].key == k
            } by {
                assert(nodes_unlinked[k].heap_index == nodes_before[k].heap_index);
                assert(nodes_changed[k].heap_index == nodes_before[k].heap_index);
            }
        }
        self.deadline_heap.update(key, heap_index, deadline_tick, &mut self.tasks);
        proof {
            let nodes = self.tasks@;
            lemma_levels_kept(self.levels, nodes_linked, nodes, Set::empty(), Set::empty());
            assert(nodes.dom() =~= nodes_before.dom());
            assert forall|k: u64| #![trigger nodes[k]] nodes.contains_key(k) implies {
                &&& placed_node(nodes[k], shape, self.current_tick as nat, 0)
                &&& nodes[k].deadline_tick >= self.current_tick
            } by {
                assert(nodes_linked.contains_key(k));
                if k == key {
                    lemma_levels_sound(self.levels, nodes, Set::empty());
                    if level > 0 {
                        assert(shape[level as int].unit >= 1);
                        lemma_units_grow(
                            self.current_tick as nat,
                            deadline_tick as nat,
                            shape[level as int].unit,
                        );
                    }
                } else {
                    assert(nodes_linked[k].level == nodes_changed[k].level);
                    assert(nodes_changed[k] == nodes_unlinked[k]);
                    assert(nodes_unlinked[k].level == nodes_before[k].level);
                    assert(placed_node(nodes_before[k], shape, self.current_tick as nat, 0));
                }
            }
            let expected = old(self).timers().insert(
                key,
                Timer { item: old(self).timers()[key].item, deadline_tick },
            );
            assert forall|k: u64| #[trigger] self.timers().contains_key(k) implies self.timers()[k]
                == expected[k] by {
                assert(nodes[k].deadline_tick == nodes_linked[k].deadline_tick);
                assert(nodes_linked[k].deadline_tick == nodes_changed[k].deadline_tick);
                if k != key {
                    assert(nodes_unlinked[k].deadline_tick == nodes_before[k].deadline_tick);
                }
            }
            assert(self.timers() =~= expected);
            lemma_unlinked_slot(old(self).levels, slots_unlinked, nodes_before[key], key);
            let place = old(self).place_of(deadline_tick);
            assert(self.slots() =~= slots_unlinked.insert(
                place,
                slots_unlinked[place].push(key),
            ));
            assert(slot_joined(slots_unlinked, self.slots(), place, key));
        }
        Ok(())
    }

    /// Takes a timer out of the wheel and gives what it carried.
    pub fn cancel(&mut self, id: TimerId) -> (item: Option<T>)
        requires
            old(self).well_formed(),
        ensures
            final(self).well_formed(),
            final(self).tick() == old(self).tick(),
            final(self).remainder() == old(self).remainder(),
            final(self).tick_nanos() == old(self).tick_nanos(),
            handles_step(old(self).handles(), final(self).handles()),
            final(self).shape() == old(self).shape(),
            item == (if old(self).timers().contains_key(id.value()) {
                Some(old(self).timers()[id.value()].item)
            } else {
                None
            }),
            final(self).timers() == old(self).timers().remove(id.value()),
            vacated(old(self).versions(), final(self).versions()),
            final(self).slots() == slots_without(old(self).slots(), id.value()),
            if old(self).timers().contains_key(id.value()) {
                slot_left(old(self).slots(), final(self).slots(), id.value()) && event_done(
                    old(self).moment(),
                    WheelEvent::Cancelled { key: id.value() },
                    final(self).moment(),
                )
            } else {
                final(self).moment() == old(self).moment()
            },
    {
        let key: u64 = id.key();
        proof {
            lemma_slots_without(self.levels, self.tasks@, key);
        }
        if self.tasks.get(key).is_none() {
            assert(self.timers().remove(key) =~= self.timers());
            return None;
        }
        let ghost nodes_before = self.tasks@;
        let ghost shape = self.levels.shape();
        self.levels.unlink(&mut self.tasks, key, Ghost(Set::empty()));
        let ghost out = Set::empty().insert(key);
        let ghost nodes_unlinked = self.tasks@;
        proof {
            let heap = self.deadline_heap@;
            assert forall|i: int| #![trigger heap[i]] 0 <= i < heap.len() implies {
                &&& nodes_unlinked.contains_key(heap[i].key)
                &&& nodes_unlinked[heap[i].key].heap_index == i
                &&& nodes_unlinked[heap[i].key].deadline_tick == heap[i].deadline_tick
            } by {
                assert(nodes_before.contains_key(heap[i].key));
            }
            assert forall|k: u64|
                #![trigger nodes_unlinked[k]]
                nodes_unlinked.contains_key(k) implies {
                &&& nodes_unlinked[k].heap_index < heap.len()
                &&& heap[nodes_unlinked[k].heap_index as int].key == k
            } by {
                assert(nodes_unlinked[k].heap_index == nodes_before[k].heap_index);
            }
            assert forall|k: u64|
                #![trigger nodes_unlinked[k]]
                nodes_unlinked.contains_key(k) && !out.contains(k) implies {
                &&& placed_node(nodes_unlinked[k], shape, self.current_tick as nat, 0)
                &&& nodes_unlinked[k].deadline_tick >= self.current_tick
            } by {
                assert(placed_node(nodes_before[k], shape, self.current_tick as nat, 0));
            }
            assert(nodes_unlinked.dom() =~= nodes_before.dom());
            assert(self.timers() =~= old(self).timers()) by {
                assert forall|k: u64| #[trigger] self.timers().contains_key(k) implies self.timers()[k]
                    == old(self).timers()[k] by {
                    assert(nodes_unlinked[k].deadline_tick == nodes_before[k].deadline_tick);
                }
            }
            assert(out.remove(key) =~= Set::empty());
            lemma_unlinked_slot(old(self).levels, self.slots(), nodes_before[key], key);
        }
        let (item, _) = self.discard(key, Ghost(out), Ghost(0));
        Some(item)
    }

    /// Moves the clock by `elapsed` and appends the timers that are then due to
    /// `expired`: tick by tick in the order of their deadlines, those of one slot
    /// in the order in which they stand there; or, after a jump, in the order of
    /// their storage.
    pub fn advance_by(
        &mut self,
        elapsed: Duration,
        expired: &mut Vec<Expired<T>>,
    ) -> (result: Result<
        AdvanceReport,
        TimerError,
    >)
        requires
            old(self).well_formed(),
        ensures
            final(self).well_formed(),
            final(self).tick_nanos() == old(self).tick_nanos(),
            final(self).shape() == old(self).shape(),
            handles_step(old(self).handles(), final(self).handles()),
            vacated(old(self).versions(), final(self).versions()),
            ({
                let total = old(self).remainder() + elapsed@;
                let ticks = total / old(self).tick_nanos();
                match result {
                    Ok(report) => {
                        let gone = final(expired)@.subrange(
                            old(expired)@.len() as int,
                            final(expired)@.len() as int,
                        );
                        &&& total <= u64::MAX
                        &&& old(self).tick() + ticks <= u64::MAX
                        &&& final(self).tick() == old(self).tick() + ticks
                        &&& final(self).remainder() == total % old(self).tick_nanos()
                        &&& report.elapsed_ticks == ticks
                        &&& report.expired_count == gone.len()
                        &&& report.fast_forwarded == (ticks > SMALL_ADVANCE_LIMIT)
                        &&& final(expired)@ == old(expired)@ + gone
                        &&& moved(old(self).timers(), final(self).timers(), gone)
                        &&& forall|key: u64| #[trigger]
                            old(self).timers().contains_key(key) ==> (
                            final(self).timers().contains_key(key)
                                <==> old(self).timers()[key].deadline_tick > final(self).tick())
                        &&& in_firing_order(gone, ticks)
                        &&& fires_so(
                            old(self).slots(),
                            old(self).timers(),
                            old(self).shape(),
                            old(self).tick() as nat,
                            ticks,
                            final(self).slots(),
                            gone,
                        )
                        &&& if ticks > SMALL_ADVANCE_LIMIT {
                            in_storage_order(final(self).slots())
                        } else {
                            order_kept(
                                old(self).slots(),
                                old(self).timers(),
                                final(self).slots(),
                                gone,
                            )
                        }
                        &&& event_done(
                            old(self).moment(),
                            WheelEvent::Passed { elapsed: elapsed@, gone },
                            final(self).moment(),
                        )
                    },
                    Err(error) => {
                        &&& final(self).moment() == old(self).moment()
                        &&& final(expired)@ == old(expired)@
                        &&& if total > u64::MAX {
                            error == TimerError::ElapsedOverflow
                        } else {
                            old(self).tick() + ticks > u64::MAX && error
                                == TimerError::ClockOverflow
                        }
                    },
                }
            }),
    {
        let elapsed_nanos: u128 = elapsed.as_nanos();
        if elapsed_nanos > u64::MAX as u128 {
            return Err(TimerError::ElapsedOverflow);
        }
        let total_nanos: u64 = match self.remainder_nanos.checked_add(elapsed_nanos as u64) {
            Some(total) => total,
            None => {
                return Err(TimerError::ElapsedOverflow);
            },
        };
        let elapsed_ticks: u64 = total_nanos / self.base_tick_nanos;
        let remainder_nanos: u64 = total_nanos % self.base_tick_nanos;
        let target_tick: u64 = match self.current_tick.checked_add(elapsed_ticks) {
            Some(target) => target,
            None => {
                return Err(TimerError::ClockOverflow);
            },
        };
        self.remainder_nanos = remainder_nanos;
        assert(self.timers() =~= old(self).timers());
        let expired_start: usize = expired.len();
        let fast_forwarded: bool = elapsed_ticks > SMALL_ADVANCE_LIMIT;
        if fast_forwarded {
            self.fast_forward(target_tick, expired);
        } else {
            self.run_ticks(target_tick, expired);
        }
        Ok(
            AdvanceReport {
                elapsed_ticks,
                expired_count: expired.len() - expired_start,
                fast_forwarded,
            },
        )
    }

    /// The time left until the earliest deadline, if there is a timer.
    pub fn next_deadline(&self) -> (result: Result<Option<Duration>, TimerError>)
        requires
            self.well_formed(),
        ensures
            match result {
                Ok(None) => self.timers().dom().len() == 0,
                Ok(Some(left)) => self.timers().dom().len() > 0 && exists|deadline: u64| #[trigger]
                    is_earliest(self.timers(), deadline) && left@ == nanos_until(
                        deadline,
                        self.tick(),
                        self.remainder(),
                        self.tick_nanos(),
                    ),
                Err(error) => error == TimerError::DeadlineOverflow,
            },
            result is Err <==> beyond_reach(
                self.timers(),
                self.tick(),
                self.remainder(),
                self.tick_nanos(),
            ),
    {
        proof {
            self.lemma_timer_keys();
        }
        match self.deadline_heap.peek() {
            None => {
                proof {
                    if self.tasks@.dom().len() != 0 {
                        let key = self.tasks@.dom().choose();
                        assert(self.tasks@[key].heap_index < self.deadline_heap@.len());
                    }
                }
                Ok(None)
            },
            Some(node) => {
                proof {
                    assert(self.tasks@.contains_key(node.key));
                    assert(self.timers().contains_key(node.key));
                    assert(self.tasks@.dom().contains(node.key));
                    assert(self.timers().dom().len() != 0) by {
                        if self.timers().dom().len() == 0 {
                            vstd::set_lib::lemma_set_empty_equivalency_len(self.timers().dom());
                        }
                    }
                    assert forall|key: u64| #[trigger]
                        self.timers().contains_key(key) implies node.deadline_tick
                        <= self.timers()[key].deadline_tick by {
                        let at = self.tasks@[key].heap_index as int;
                        assert(self.deadline_heap@[at].key == key);
                        lemma_root_is_least(self.deadline_heap@, at);
                    }
                    assert(is_earliest(self.timers(), node.deadline_tick));
                }
                match self.duration_until_tick(node.deadline_tick) {
                    Ok(left) => {
                        let nanos: u128 = left.as_nanos();
                        assert(nanos <= MAX_NANOS);
                        Ok(Some(left))
                    },
                    Err(error) => Err(error),
                }
            },
        }
    }

    /// The length of a tick.
    pub fn tick_duration(&self) -> (tick: Duration)
        ensures
            tick@ == self.tick_nanos(),
    {
        Duration::from_nanos(self.base_tick_nanos)
    }

    /// The clock of the wheel.
    pub fn current_tick(&self) -> (tick: u64)
        ensures
            tick == self.tick(),
    {
        self.current_tick
    }

    /// The number of timers.
    pub fn len(&self) -> (count: usize)
        ensures
            count == self.timers().dom().len(),
    {
        proof {
            self.lemma_timer_keys();
        }
        self.tasks.len()
    }

    /// Whether there is no timer.
    pub fn is_empty(&self) -> (empty: bool)
        ensures
            empty <==> self.timers().dom().len() == 0,
    {
        self.len() == 0
    }

    /// Takes every timer out and appends what they carried to `out`, in the
    /// order of their storage.
    pub fn clear(&mut self, out: &mut Vec<T>)
        requires
            old(self).well_formed(),
        ensures
            final(self).well_formed(),
            final(self).timers() == Map::<u64, Timer<T>>::empty(),
            final(self).tick() == old(self).tick(),
            final(self).remainder() == old(self).remainder(),
            final(self).tick_nanos() == old(self).tick_nanos(),
            handles_step(old(self).handles(), final(self).handles()),
            final(self).shape() == old(self).shape(),
            final(self).slots() == slots_emptied(old(self).slots()),
            forall|place: (int, int), at: int, key: u64| !#[trigger]
                stands(final(self).slots(), place, at, key),
            vacated(old(self).versions(), final(self).versions()),
            exists|keys: Seq<u64>| #[trigger]
                lists_keys(keys, old(self).timers()) && final(out)@ == old(out)@ + Seq::new(
                    keys.len(),
                    |i: int| old(self).timers()[keys[i]].item,
                ),
            event_done(old(self).moment(), WheelEvent::Cleared, final(self).moment()),
    {
        proof {
            self.lemma_timer_keys();
            lemma_levels_sound(self.levels, self.tasks@, Set::empty());
        }
        let ghost timers_before = self.timers();
        let ghost nodes_before = self.tasks@;
        let ghost items_before = self.items@;
        self.levels.clear();
        self.deadline_heap.clear();
        let keys = self.tasks.drain();
        proof {
            assert forall|i: int| 0 <= i < self.versions().len() implies #[trigger] self.versions()[i]
                % 2 == 0 by {
                assert(old(self).versions()[i] % 2 == 1 || old(self).versions()[i] % 2 == 0);
            }
            lemma_levels_empty(self.levels, self.tasks@, Set::empty());
            assert forall|i: int| 0 <= i < keys@.len() implies nodes_before.contains_key(
                #[trigger] keys@[i],
            ) by {
                assert(keys@.contains(keys@[i]));
            }
        }
        let mut index: usize = 0;
        while index < keys.len()
            invariant
                index <= keys@.len(),
                self.tasks@ == Map::<u64, TaskNode>::empty(),
                vacated(old(self).versions(), self.versions()),
                versions_match(Set::empty(), self.versions()),
                self.levels.well_formed(self.tasks@, Set::empty()),
                self.deadline_heap@ == Seq::<DeadlineNode>::empty(),
                self.same_clock(old(self)),
                self.items@.len() == items_before.len(),
                timers_before == old(self).timers(),
                nodes_before == old(self).tasks@,
                items_before == old(self).items@,
                old(self).stored(),
                forall|i: int|
                    0 <= i < keys@.len() ==> nodes_before.contains_key(#[trigger] keys@[i]),
                forall|i: int, j: int|
                    0 <= i < j < keys@.len() ==> key_index(#[trigger] keys@[i]) < key_index(
                        #[trigger] keys@[j],
                    ),
                forall|i: int|
                    index <= i < keys@.len() ==> self.items@[key_index(
                        #[trigger] keys@[i],
                    ) as int] == items_before[key_index(keys@[i]) as int],
                out@ == old(out)@ + Seq::new(
                    index as nat,
                    |i: int| timers_before[keys@[i]].item,
                ),
            decreases keys@.len() - index,
        {
            let key: u64 = keys[index];
            assert(nodes_before.contains_key(key));
            assert(timers_before.contains_key(key));
            let item = self.take_item(key);
            let ghost out_before = out@;
            out.push(item);
            proof {
                assert(out@ =~= old(out)@ + Seq::new(
                    (index + 1) as nat,
                    |i: int| timers_before[keys@[i]].item,
                ));
            }
            index = index + 1;
        }
        proof {
            assert(self.timers() =~= Map::<u64, Timer<T>>::empty());
            lemma_standing(self.levels, self.tasks@, Set::empty());
            assert forall|place: (int, int)| #[trigger]
                self.slots().contains_key(place) implies self.slots()[place] =~= Seq::<u64>::empty() by {
                if self.slots()[place].len() > 0 {
                    assert(stands(self.slots(), place, 0, self.slots()[place][0]));
                }
            }
            assert(self.slots() =~= slots_emptied(old(self).slots()));
            assert(lists_keys(keys@, timers_before));
        }
    }

    /// The tick at which a timer with this delay is due.
    fn deadline_after(&self, delay: Duration) -> (result: Result<u64, TimerError>)
        requires
            self.remainder_nanos < self.base_tick_nanos,
        ensures
            ({
                let deadline = self.tick() + delay_ticks(
                    delay@,
                    self.remainder(),
                    self.tick_nanos(),
                );
                match result {
                    Ok(tick) => tick == deadline && tick >= self.tick(),
                    Err(error) => deadline > u64::MAX && error == TimerError::DelayOverflow,
                }
            }),
    {
        let ticks: u128 = if delay.is_zero() {
            0
        } else {
            let offset: u128 = delay.as_nanos() + self.remainder_nanos as u128;
            let base: u128 = self.base_tick_nanos as u128;
            let whole: u128 = offset / base;
            if offset % base == 0 {
                whole
            } else {
                assert(whole <= offset) by {
                    vstd::arithmetic::div_mod::lemma_div_is_ordered_by_denominator(
                        offset as int,
                        1,
                        base as int,
                    );
                }
                whole + 1
            }
        };
        if ticks > u64::MAX as u128 {
            return Err(TimerError::DelayOverflow);
        }
        match self.current_tick.checked_add(ticks as u64) {
            Some(deadline) => Ok(deadline),
            None => Err(TimerError::DelayOverflow),
        }
    }

    /// Keeps the item of the timer under `key`.
    fn store_item(&mut self, key: u64, item: T)
        ensures
            final(self).same_clock(old(self)),
            final(self).tasks == old(self).tasks,
            final(self).levels == old(self).levels,
            final(self).deadline_heap == old(self).deadline_heap,
            final(self).items@.len() >= old(self).items@.len(),
            key_index(key) < final(self).items@.len(),
            final(self).items@[key_index(key) as int] == Some(item),
            forall|i: int|
                0 <= i < old(self).items@.len() && i != key_index(key) ==> (
                #[trigger] final(self).items@[i]) == old(self).items@[i],
    {
        let index: usize = (key % 0x1_0000_0000) as usize;
        while self.items.len() <= index
            invariant
                self.same_clock(old(self)),
                self.tasks == old(self).tasks,
                self.levels == old(self).levels,
                self.deadline_heap == old(self).deadline_heap,
                self.items@.len() >= old(self).items@.len(),
                forall|i: int|
                    0 <= i < old(self).items@.len() ==> (#[trigger] self.items@[i]) == old(
                        self,
                    ).items@[i],
            decreases index + 1 - self.items@.len(),
        {
            self.items.push(None);
        }
        self.items.set(index, Some(item));
    }

    /// Gives the item of the timer under `key` away.
    fn take_item(&mut self, key: u64) -> (item: T)
        requires
            key_index(key) < old(self).items@.len(),
            old(self).items@[key_index(key) as int] is Some,
        ensures
            final(self).same_clock(old(self)),
            final(self).tasks == old(self).tasks,
            final(self).levels == old(self).levels,
            final(self).deadline_heap == old(self).deadline_heap,
            Some(item) == old(self).items@[key_index(key) as int],
            final(self).items@ == old(self).items@.update(key_index(key) as int, None),
    {
        let index: usize = (key % 0x1_0000_0000) as usize;
        let mut slot: Option<T> = None;
        std::mem::swap(&mut slot, &mut self.items[index]);
        slot.unwrap()
    }

    /// Takes a timer that is in no list out of the wheel.
    fn discard(&mut self, key: u64, Ghost(out): Ghost<Set<u64>>, Ghost(top): Ghost<int>) -> (gone: (
        T,
        u64,
    ))
        requires
            old(self).settled(top, out),
            old(self).tasks@.contains_key(key),
            out.contains(key),
        ensures
            final(self).settled(top, out.remove(key)),
            final(self).same_clock(old(self)),
            final(self).levels == old(self).levels,
            old(self).timers().contains_key(key),
            gone.0 == old(self).timers()[key].item,
            gone.1 == old(self).timers()[key].deadline_tick,
            final(self).timers() == old(self).timers().remove(key),
            vacated(old(self).versions(), final(self).versions()),
            forall|k: u64|
                #![trigger final(self).tasks@[k]]
                old(self).tasks@.contains_key(k) && k != key ==> {
                    &&& final(self).tasks@.contains_key(k)
                    &&& final(self).tasks@[k] == (TaskNode {
                        heap_index: final(self).tasks@[k].heap_index,
                        ..old(self).tasks@[k]
                    })
                },
    {
        let ghost nodes_before = self.tasks@;
        let ghost shape = self.levels.shape();
        let node: TaskNode = *self.tasks.get(key).unwrap();
        self.deadline_heap.remove(key, node.heap_index, &mut self.tasks);
        let ghost nodes_moved = self.tasks@;
        self.tasks.remove(key);
        let item = self.take_item(key);
        proof {
            let nodes = self.tasks@;
            let heap = self.deadline_heap@;
            assert(nodes =~= nodes_moved.remove(key));
            lemma_match_vacated(nodes_before.dom(), old(self).versions(), self.versions(), key);
            assert forall|k: u64| #[trigger] nodes.contains_key(k) implies nodes[k] == (TaskNode {
                heap_index: nodes[k].heap_index,
                ..nodes_before[k]
            }) && nodes_before.contains_key(k) && k != key by {
                assert(nodes_moved.contains_key(k));
                assert(nodes[k] == nodes_moved[k]);
            }
            lemma_levels_kept(self.levels, nodes_before, nodes, out, out.remove(key));
            assert forall|i: int| #![trigger heap[i]] 0 <= i < heap.len() implies {
                &&& nodes.contains_key(heap[i].key)
                &&& nodes[heap[i].key].heap_index == i
                &&& nodes[heap[i].key].deadline_tick == heap[i].deadline_tick
            } by {
                assert(nodes_moved.contains_key(heap[i].key));
            }
            assert forall|k: u64| #![trigger nodes[k]] nodes.contains_key(k) implies {
                &&& nodes[k].heap_index < heap.len()
                &&& heap[nodes[k].heap_index as int].key == k
            } by {
                assert(nodes_moved[k] == nodes[k]);
                assert(!set![key].contains(k));
            }
            assert forall|k: u64|
                #![trigger nodes[k]]
                nodes.contains_key(k) && !out.remove(key).contains(k) implies {
                &&& placed_node(nodes[k], shape, self.current_tick as nat, top)
                &&& nodes[k].deadline_tick >= self.current_tick
            } by {
                assert(placed_node(nodes_before[k], shape, self.current_tick as nat, top));
            }
            assert(self.stored()) by {
                assert forall|k: u64| #[trigger] self.tasks@.contains_key(k) implies {
                    &&& key_valid(k)
                    &&& key_index(k) < self.items@.len()
                    &&& self.items@[key_index(k) as int] is Some
                } by {
                    assert(nodes_before.contains_key(k));
                    assert(nodes_before.contains_key(key));
                    assert(key_index(k) != key_index(key));
                }
                assert forall|left: u64, right: u64| #[trigger]
                    self.tasks@.contains_key(left) && #[trigger] self.tasks@.contains_key(right)
                        && key_index(left) == key_index(right) implies left == right by {
                    assert(nodes_before.contains_key(left));
                    assert(nodes_before.contains_key(right));
                }
                assert(nodes.dom() =~= nodes_before.dom().remove(key));
                assert(versions_match(nodes.dom(), self.versions()));
            }
            assert(self.timers() =~= old(self).timers().remove(key)) by {
                assert forall|k: u64| #[trigger] self.timers().contains_key(k) implies self.timers()[k]
                    == old(self).timers().remove(key)[k] by {
                    assert(nodes.contains_key(k));
                    assert(nodes_before.contains_key(key));
                    assert(key_index(k) != key_index(key));
                }
                assert forall|k: u64| #[trigger]
                    old(self).timers().remove(key).contains_key(k) implies self.timers().contains_key(
                    k,
                ) by {
                    assert(nodes_before.contains_key(k));
                    assert(nodes_moved.contains_key(k));
                }
            }
        }
        (item, node.deadline_tick)
    }

    /// Fires a timer that is in no list, or puts it in its slot.
    fn settle(
        &mut self,
        key: u64,
        expired: &mut Vec<Expired<T>>,
        Ghost(out): Ghost<Set<u64>>,
        Ghost(top): Ghost<int>,
    )
        requires
            old(self).settled(top, out),
            old(self).tasks@.contains_key(key),
            out.contains(key),
        ensures
            final(self).settled(top, out.remove(key)),
            final(self).same_clock(old(self)),
            vacated(old(self).versions(), final(self).versions()),
            old(self).timers().contains_key(key),
            old(self).timers()[key].deadline_tick <= old(self).current_tick ==> {
                &&& final(expired)@ == old(expired)@.push(final(expired)@.last())
                &&& final(expired)@.last().id.value() == key
                &&& final(expired)@.last().item == old(self).timers()[key].item
                &&& final(expired)@.last().deadline_tick == old(self).timers()[key].deadline_tick
                &&& final(self).timers() == old(self).timers().remove(key)
                &&& final(self).slots() == old(self).slots()
            },
            old(self).timers()[key].deadline_tick > old(self).current_tick ==> {
                &&& final(expired)@ == old(expired)@
                &&& final(self).timers() == old(self).timers()
                &&& slot_joined(
                    old(self).slots(),
                    final(self).slots(),
                    old(self).place_of(old(self).timers()[key].deadline_tick),
                    key,
                )
            },
            forall|k: u64| #[trigger]
                out.contains(k) && k != key && old(self).tasks@.contains_key(k) ==> {
                    &&& final(self).tasks@.contains_key(k)
                    &&& final(self).tasks@[k] == (TaskNode {
                        heap_index: final(self).tasks@[k].heap_index,
                        ..old(self).tasks@[k]
                    })
                },
    {
        let ghost nodes_before = self.tasks@;
        let ghost shape = self.levels.shape();
        let deadline_tick: u64 = self.tasks.get(key).unwrap().deadline_tick;
        if deadline_tick <= self.current_tick {
            let (item, deadline_tick) = self.discard(key, Ghost(out), Ghost(top));
            expired.push(Expired { id: TimerId::from_key(key), item, deadline_tick });
        } else {
            proof {
                lemma_levels_sound(self.levels, self.tasks@, out);
            }
            let (level, slot) = self.levels.locate(self.current_tick, deadline_tick);
            self.levels.link(&mut self.tasks, key, level, slot, Ghost(out));
            proof {
                let nodes = self.tasks@;
                let heap = self.deadline_heap@;
                assert forall|k: u64|
                    #![trigger nodes[k]]
                    nodes.contains_key(k) && !out.remove(key).contains(k) implies {
                    &&& placed_node(nodes[k], shape, self.current_tick as nat, top)
                    &&& nodes[k].deadline_tick >= self.current_tick
                } by {
                    if k == key {
                        if level > 0 {
                            assert(shape[level as int].unit >= 1);
                            lemma_units_grow(
                                self.current_tick as nat,
                                deadline_tick as nat,
                                shape[level as int].unit,
                            );
                        }
                    } else {
                        assert(placed_node(nodes_before[k], shape, self.current_tick as nat, top));
                    }
                }
                assert forall|i: int| #![trigger heap[i]] 0 <= i < heap.len() implies {
                    &&& nodes.contains_key(heap[i].key)
                    &&& nodes[heap[i].key].heap_index == i
                    &&& nodes[heap[i].key].deadline_tick == heap[i].deadline_tick
                } by {
                    assert(nodes_before.contains_key(heap[i].key));
                }
                assert forall|k: u64| #![trigger nodes[k]] nodes.contains_key(k) implies {
                    &&& nodes[k].heap_index < heap.len()
                    &&& heap[nodes[k].heap_index as int].key == k
                } by {
                    assert(nodes[k].heap_index == nodes_before[k].heap_index);
                }
                assert(self.timers() =~= old(self).timers()) by {
                    assert forall|k: u64| #[trigger]
                        self.timers().contains_key(k) implies self.timers()[k] == old(
                        self,
                    ).timers()[k] by {
                        assert(nodes[k].deadline_tick == nodes_before[k].deadline_tick);
                    }
                }
                let place = old(self).place_of(deadline_tick);
                assert(self.slots() =~= old(self).slots().insert(
                    place,
                    old(self).slots()[place].push(key),
                ));
            }
        }
    }

    /// Fires the timers of a slot that are due and places the others anew.
    #[verifier::rlimit(60)]
    #[verifier::spinoff_prover]
    fn process_slot(
        &mut self,
        level: usize,
        slot: usize,
        expired: &mut Vec<Expired<T>>,
        Ghost(all): Ghost<Map<u64, Timer<T>>>,
        Ghost(start): Ghost<int>,
    )
        requires
            agrees(all, old(self).timers()),
            0 <= start <= old(expired)@.len(),
            old(self).settled(level + 1, Set::empty()),
            in_shape(old(self).levels.shape(), level as int, slot as int),
            slot == (old(self).current_tick as nat / old(self).levels.shape()[level as int].unit)
                % old(self).levels.shape()[level as int].count,
            old(self).current_tick as nat % old(self).levels.shape()[level as int].unit == 0,
        ensures
            final(self).settled(level as int, Set::empty()),
            final(self).same_clock(old(self)),
            vacated(old(self).versions(), final(self).versions()),
            fired_at(
                old(self).timers(),
                final(self).timers(),
                old(expired)@,
                final(expired)@,
                old(self).current_tick,
            ),
            order_kept(
                old(self).slots(),
                old(self).timers(),
                final(self).slots(),
                final(expired)@.subrange(old(expired)@.len() as int, final(expired)@.len() as int),
            ),
            firing_at(final(self).slots(), final(expired)@, start) == slot_run(
                firing_at(old(self).slots(), old(expired)@, start),
                (level as int, slot as int),
                all,
                old(self).levels.shape(),
                old(self).current_tick as nat,
            ),
            level == 0 ==> forall|key: u64| #[trigger]
                final(self).timers().contains_key(key) ==> final(self).timers()[key].deadline_tick
                    > old(self).current_tick,
    {
        let ghost shape = self.levels.shape();
        let ghost now = self.current_tick as nat;
        let ghost chain = self.levels.lists()[(level as int, slot as int)];
        let ghost place = (level as int, slot as int);
        let ghost slots_before = self.slots();
        let ghost first = expired@.len() as int;
        let ghost begun = Firing {
            slots: slots_before.insert(place, Seq::empty()),
            fired: firing_at(slots_before, expired@, start).fired,
        };
        let ghost nodes_before = self.tasks@;
        let ghost timers_before = self.timers();
        let mut current: Option<u64> = self.levels.take(
            &self.tasks,
            level,
            slot,
            Ghost(Set::empty()),
        );
        let ghost mut out = Set::<u64>::empty().union(chain.to_set());
        let ghost mut at: int = 0;
        proof {
            let nodes = self.tasks@;
            assert forall|k: u64|
                #![trigger nodes[k]]
                nodes.contains_key(k) && !out.contains(k) implies {
                &&& placed_node(nodes[k], shape, now, level as int)
                &&& nodes[k].deadline_tick >= now
                &&& level == 0 ==> nodes[k].deadline_tick > now
            } by {
                assert(placed_node(nodes[k], shape, now, level + 1));
                lemma_levels_hold(old(self).levels, nodes, Set::empty(), k);
                lemma_levels_sound(old(self).levels, nodes, Set::empty());
                if nodes[k].level == level && nodes[k].slot == slot {
                    assert(chain.contains(k));
                    assert(chain.to_set().contains(k));
                    assert(false);
                }
                if level == 0 && nodes[k].level > 0 {
                    let unit = shape[nodes[k].level as int].unit;
                    assert(unit >= 1);
                    if nodes[k].deadline_tick == now {
                        assert(nodes[k].deadline_tick as nat / unit == now / unit);
                    }
                }
            }
            assert(self.timers() =~= timers_before);
            assert forall|j: int| 0 <= j < chain.len() implies out.contains(#[trigger] chain[j]) by {
                assert(chain.to_set().contains(chain[j]));
            }
            lemma_fired_none(timers_before, expired@, self.current_tick);
            assert(self.slots() =~= slots_before.insert(place, Seq::empty()));
        }
        while current.is_some()
            invariant
                shape == old(self).levels.shape(),
                now == old(self).current_tick,
                timers_before == old(self).timers(),
                nodes_before == old(self).tasks@,
                old(self).settled(level + 1, Set::empty()),
                self.settled(level as int, out),
                self.same_clock(old(self)),
                vacated(old(self).versions(), self.versions()),
                0 <= at <= chain.len(),
                chain.no_duplicates(),
                first == old(expired)@.len(),
                slots_before == old(self).slots(),
                chain == slots_before[place],
                agrees(all, timers_before),
                0 <= start <= expired@.len(),
                firing_at(self.slots(), expired@, start) == settled_run(
                    begun,
                    chain,
                    at,
                    all,
                    shape,
                    now,
                ),
                chain_kept(
                    chain,
                    at,
                    place,
                    slots_before,
                    self.slots(),
                    timers_before,
                    expired@.subrange(first, expired@.len() as int),
                    shape,
                    now,
                ),
                current == (if at < chain.len() {
                    Some(chain[at])
                } else {
                    None
                }),
                forall|j: int| at <= j < chain.len() ==> out.contains(#[trigger] chain[j]),
                forall|k: u64| #[trigger]
                    out.contains(k) ==> exists|j: int| at <= j < chain.len() && chain[j] == k,
                forall|j: int|
                    #![trigger chain[j]]
                    at <= j < chain.len() ==> {
                        &&& self.tasks@.contains_key(chain[j])
                        &&& self.tasks@[chain[j]].next == (if j == chain.len() - 1 {
                            None
                        } else {
                            Some(chain[j + 1])
                        })
                        &&& self.tasks@[chain[j]].deadline_tick >= now
                        &&& self.timers()[chain[j]] == timers_before[chain[j]]
                    },
                fired_at(
                    timers_before,
                    self.timers(),
                    old(expired)@,
                    expired@,
                    old(self).current_tick,
                ),
                level == 0 ==> forall|k: u64| #[trigger]
                    self.timers().contains_key(k) && !out.contains(k)
                        ==> self.timers()[k].deadline_tick > now,
            decreases chain.len() - at,
        {
            let key: u64 = current.unwrap();
            let ghost timers_now = self.timers();
            let ghost nodes_now = self.tasks@;
            let ghost expired_now = expired@;
            let ghost slots_now = self.slots();
            let ghost versions_now = self.versions();
            assert(key == chain[at]);
            let next = self.tasks.get(key).unwrap().next;
            self.settle(key, expired, Ghost(out), Ghost(level as int));
            proof {
                lemma_vacated_on(old(self).versions(), versions_now, self.versions());
                assert(timers_now[key].deadline_tick == nodes_now[key].deadline_tick);
                assert(timers_before.contains_key(key));
                assert(all[key] == timers_now[key]);
                let next_at = at + 1;
                assert(chain[next_at - 1] == key);
                if timers_now[key].deadline_tick <= now {
                    lemma_numbers_grow(expired_now, expired@, start);
                }
                assert(firing_at(self.slots(), expired@, start) =~= settled_run(
                    begun,
                    chain,
                    next_at,
                    all,
                    shape,
                    now,
                ));
                assert forall|j: int| at < j < chain.len() implies out.contains(
                    #[trigger] chain[j],
                ) && chain[j] != key by {}
                if timers_now[key].deadline_tick <= now {
                    lemma_fired_one(
                        timers_before,
                        timers_now,
                        self.timers(),
                        old(expired)@,
                        expired_now,
                        expired@,
                        old(self).current_tick,
                        key,
                    );
                    lemma_chain_fires(
                        chain,
                        at,
                        place,
                        slots_before,
                        slots_now,
                        timers_before,
                        expired_now.subrange(first, expired_now.len() as int),
                        expired@.subrange(first, expired@.len() as int),
                        shape,
                        now,
                    );
                } else {
                    lemma_chain_joins(
                        chain,
                        at,
                        place,
                        slots_before,
                        slots_now,
                        self.slots(),
                        timers_before,
                        expired@.subrange(first, expired@.len() as int),
                        shape,
                        now,
                    );
                }
                let out_before = out;
                out = out.remove(key);
                assert forall|k: u64| #[trigger] out.contains(k) implies exists|j: int|
                    at + 1 <= j < chain.len() && chain[j] == k by {
                    assert(out_before.contains(k));
                    let j = choose|j: int| at <= j < chain.len() && chain[j] == k;
                    assert(j != at);
                }
                at = at + 1;
            }
            current = next;
        }
        proof {
            assert(out =~= Set::empty()) by {
                assert forall|k: u64| !out.contains(k) by {
                    if out.contains(k) {
                        let j = choose|j: int| at <= j < chain.len() && chain[j] == k;
                    }
                }
            }
            lemma_chain_done(
                place,
                slots_before,
                self.slots(),
                timers_before,
                expired@.subrange(first, expired@.len() as int),
                shape,
                now,
            );
        }
    }

    /// Empties the slots of the higher levels that the clock has reached.
    #[verifier::rlimit(60)]
    #[verifier::spinoff_prover]
    fn cascade_at_current_tick(
        &mut self,
        expired: &mut Vec<Expired<T>>,
        Ghost(all): Ghost<Map<u64, Timer<T>>>,
        Ghost(start): Ghost<int>,
    )
        requires
            agrees(all, old(self).timers()),
            0 <= start <= old(expired)@.len(),
            old(self).settled(old(self).levels.shape().len() as int, Set::empty()),
        ensures
            final(self).settled(1, Set::empty()),
            final(self).same_clock(old(self)),
            vacated(old(self).versions(), final(self).versions()),
            fired_at(
                old(self).timers(),
                final(self).timers(),
                old(expired)@,
                final(expired)@,
                old(self).current_tick,
            ),
            order_kept(
                old(self).slots(),
                old(self).timers(),
                final(self).slots(),
                final(expired)@.subrange(old(expired)@.len() as int, final(expired)@.len() as int),
            ),
            firing_at(final(self).slots(), final(expired)@, start) == levels_run(
                firing_at(old(self).slots(), old(expired)@, start),
                1,
                all,
                old(self).levels.shape(),
                old(self).current_tick as nat,
            ),
    {
        proof {
            lemma_levels_sound(self.levels, self.tasks@, Set::empty());
            lemma_fired_none(self.timers(), expired@, self.current_tick);
            assert(order_kept(self.slots(), self.timers(), self.slots(), expired@.subrange(
                expired@.len() as int,
                expired@.len() as int,
            )));
        }
        let mut above: usize = self.levels.count();
        while above > 1
            invariant
                1 <= above <= self.levels.shape().len(),
                self.settled(above as int, Set::empty()),
                self.same_clock(old(self)),
                vacated(old(self).versions(), self.versions()),
                fired_at(
                    old(self).timers(),
                    self.timers(),
                    old(expired)@,
                    expired@,
                    old(self).current_tick,
                ),
                order_kept(
                    old(self).slots(),
                    old(self).timers(),
                    self.slots(),
                    expired@.subrange(old(expired)@.len() as int, expired@.len() as int),
                ),
                agrees(all, self.timers()),
                0 <= start <= expired@.len(),
                firing_at(self.slots(), expired@, start) == levels_run(
                    firing_at(old(self).slots(), old(expired)@, start),
                    above as int,
                    all,
                    self.levels.shape(),
                    self.current_tick as nat,
                ),
            decreases above,
        {
            let level: usize = above - 1;
            proof {
                lemma_levels_sound(self.levels, self.tasks@, Set::empty());
            }
            let ghost timers_now = self.timers();
            proof {
                self.lemma_slots_timed(above as int);
            }
            let ghost expired_now = expired@;
            let ghost slots_now = self.slots();
            let ghost versions_now = self.versions();
            match self.levels.slot_at(level, self.current_tick) {
                Some(slot) => {
                    self.process_slot(level, slot, expired, Ghost(all), Ghost(start));
                    proof {
                        lemma_vacated_on(old(self).versions(), versions_now, self.versions());
                        lemma_order_fired(
                            old(self).slots(),
                            old(self).timers(),
                            slots_now,
                            timers_now,
                            self.slots(),
                            self.timers(),
                            old(expired)@,
                            expired_now,
                            expired@,
                            old(self).current_tick,
                        );
                        lemma_fired_on(
                            old(self).timers(),
                            timers_now,
                            self.timers(),
                            old(expired)@,
                            expired_now,
                            expired@,
                            old(self).current_tick,
                        );
                    }
                },
                None => {
                    proof {
                        let nodes = self.tasks@;
                        assert forall|k: u64|
                            #![trigger nodes[k]]
                            nodes.contains_key(k) implies placed_node(
                            nodes[k],
                            self.levels.shape(),
                            self.current_tick as nat,
                            level as int,
                        ) by {
                            assert(placed_node(
                                nodes[k],
                                self.levels.shape(),
                                self.current_tick as nat,
                                above as int,
                            ));
                        }
                    }
                },
            }
            above = level;
        }
    }

    /// Fires the timers of the lowest level that are due now.
    fn process_l0_slot(
        &mut self,
        expired: &mut Vec<Expired<T>>,
        Ghost(all): Ghost<Map<u64, Timer<T>>>,
        Ghost(start): Ghost<int>,
    )
        requires
            agrees(all, old(self).timers()),
            0 <= start <= old(expired)@.len(),
            old(self).settled(1, Set::empty()),
        ensures
            final(self).settled(0, Set::empty()),
            final(self).same_clock(old(self)),
            vacated(old(self).versions(), final(self).versions()),
            fired_at(
                old(self).timers(),
                final(self).timers(),
                old(expired)@,
                final(expired)@,
                old(self).current_tick,
            ),
            order_kept(
                old(self).slots(),
                old(self).timers(),
                final(self).slots(),
                final(expired)@.subrange(old(expired)@.len() as int, final(expired)@.len() as int),
            ),
            firing_at(final(self).slots(), final(expired)@, start) == slot_run(
                firing_at(old(self).slots(), old(expired)@, start),
                (0, (old(self).current_tick as nat % old(self).levels.shape()[0].count) as int),
                all,
                old(self).levels.shape(),
                old(self).current_tick as nat,
            ),
            forall|key: u64| #[trigger]
                final(self).timers().contains_key(key) ==> final(self).timers()[key].deadline_tick
                    > old(self).current_tick,
    {
        proof {
            lemma_levels_sound(self.levels, self.tasks@, Set::empty());
            assert(self.levels.shape()[0].unit == 1);
        }
        match self.levels.slot_at(0, self.current_tick) {
            Some(slot) => {
                self.process_slot(0, slot, expired, Ghost(all), Ghost(start));
            },
            None => {
                assert(false);
            },
        }
    }

    /// Does what is due at the current tick.
    fn process_tick(
        &mut self,
        expired: &mut Vec<Expired<T>>,
        Ghost(all): Ghost<Map<u64, Timer<T>>>,
        Ghost(start): Ghost<int>,
    )
        requires
            agrees(all, old(self).timers()),
            0 <= start <= old(expired)@.len(),
            old(self).settled(old(self).levels.shape().len() as int, Set::empty()),
        ensures
            final(self).settled(0, Set::empty()),
            final(self).same_clock(old(self)),
            vacated(old(self).versions(), final(self).versions()),
            fired_at(
                old(self).timers(),
                final(self).timers(),
                old(expired)@,
                final(expired)@,
                old(self).current_tick,
            ),
            order_kept(
                old(self).slots(),
                old(self).timers(),
                final(self).slots(),
                final(expired)@.subrange(old(expired)@.len() as int, final(expired)@.len() as int),
            ),
            firing_at(final(self).slots(), final(expired)@, start) == levels_run(
                firing_at(old(self).slots(), old(expired)@, start),
                0,
                all,
                old(self).levels.shape(),
                old(self).current_tick as nat,
            ),
            forall|key: u64| #[trigger]
                final(self).timers().contains_key(key) ==> final(self).timers()[key].deadline_tick
                    > old(self).current_tick,
    {
        self.cascade_at_current_tick(expired, Ghost(all), Ghost(start));
        let ghost timers_now = self.timers();
        let ghost expired_now = expired@;
        let ghost slots_now = self.slots();
        let ghost versions_now = self.versions();
        proof {
            self.lemma_slots_timed(1);
            lemma_levels_sound(self.levels, self.tasks@, Set::empty());
            let now = self.current_tick as nat;
            assert(self.levels.shape()[0].unit == 1);
            assert(now % 1 == 0 && now / 1 == now);
        }
        self.process_l0_slot(expired, Ghost(all), Ghost(start));
        proof {
            lemma_vacated_on(old(self).versions(), versions_now, self.versions());
            lemma_order_fired(
                old(self).slots(),
                old(self).timers(),
                slots_now,
                timers_now,
                self.slots(),
                self.timers(),
                old(expired)@,
                expired_now,
                expired@,
                old(self).current_tick,
            );
            lemma_fired_on(
                old(self).timers(),
                timers_now,
                self.timers(),
                old(expired)@,
                expired_now,
                expired@,
                old(self).current_tick,
            );
        }
    }

    /// Moves the clock to `target_tick`, tick by tick.
    #[verifier::rlimit(60)]
    #[verifier::spinoff_prover]
    fn run_ticks(&mut self, target_tick: u64, expired: &mut Vec<Expired<T>>)
        requires
            old(self).settled(0, Set::empty()),
            old(self).current_tick <= target_tick,
        ensures
            final(self).settled(0, Set::empty()),
            final(self).current_tick == target_tick,
            final(self).remainder_nanos == old(self).remainder_nanos,
            final(self).base_tick_nanos == old(self).base_tick_nanos,
            final(self).levels.shape() == old(self).levels.shape(),
            vacated(old(self).versions(), final(self).versions()),
            ({
                let gone = final(expired)@.subrange(
                    old(expired)@.len() as int,
                    final(expired)@.len() as int,
                );
                &&& final(expired)@.len() >= old(expired)@.len()
                &&& final(expired)@ == old(expired)@ + gone
                &&& moved(old(self).timers(), final(self).timers(), gone)
                &&& forall|key: u64| #[trigger]
                    old(self).timers().contains_key(key) ==> (final(self).timers().contains_key(key)
                        <==> old(self).timers()[key].deadline_tick > target_tick)
                &&& forall|i: int, j: int|
                    0 <= i < j < gone.len() ==> (#[trigger] gone[i]).deadline_tick <= (
                    #[trigger] gone[j]).deadline_tick
                &&& order_kept(old(self).slots(), old(self).timers(), final(self).slots(), gone)
                &&& (Firing { slots: final(self).slots(), fired: numbers_of(gone) }) == ticks_run(
                    Firing { slots: old(self).slots(), fired: Seq::empty() },
                    old(self).current_tick as nat,
                    (target_tick - old(self).current_tick + 1) as nat,
                    old(self).timers(),
                    old(self).levels.shape(),
                )
            }),
    {
        proof {
            let nodes = self.tasks@;
            let top = self.levels.shape().len() as int;
            assert forall|k: u64| #![trigger nodes[k]] nodes.contains_key(k) implies placed_node(
                nodes[k],
                self.levels.shape(),
                self.current_tick as nat,
                top,
            ) by {
                assert(placed_node(nodes[k], self.levels.shape(), self.current_tick as nat, 0));
            }
        }
        let ghost first = old(expired)@.len() as int;
        let ghost all = self.timers();
        let ghost begun = Firing { slots: self.slots(), fired: Seq::empty() };
        proof {
            assert(firing_at(self.slots(), expired@, first) =~= begun);
            reveal_with_fuel(ticks_run, 2);
        }
        self.process_tick(expired, Ghost(all), Ghost(first));
        proof {
            let gone = expired@.subrange(first, expired@.len() as int);
            assert forall|i: int| first <= i < expired@.len() implies (
            #[trigger] expired@[i]).deadline_tick == self.current_tick by {
                assert(expired@[i] == gone[i - first]);
            }
        }
        while self.current_tick < target_tick
            invariant
                first == old(expired)@.len(),
                all == old(self).timers(),
                begun == (Firing { slots: old(self).slots(), fired: Seq::<u64>::empty() }),
                firing_at(self.slots(), expired@, first) == ticks_run(
                    begun,
                    old(self).current_tick as nat,
                    (self.current_tick - old(self).current_tick + 1) as nat,
                    all,
                    self.levels.shape(),
                ),
                old(self).current_tick <= self.current_tick <= target_tick,
                self.settled(0, Set::empty()),
                self.remainder_nanos == old(self).remainder_nanos,
                self.base_tick_nanos == old(self).base_tick_nanos,
                self.levels.shape() == old(self).levels.shape(),
                vacated(old(self).versions(), self.versions()),
                expired@.len() >= first,
                expired@.subrange(0, first) == old(expired)@,
                moved(
                    old(self).timers(),
                    self.timers(),
                    expired@.subrange(first, expired@.len() as int),
                ),
                order_kept(
                    old(self).slots(),
                    old(self).timers(),
                    self.slots(),
                    expired@.subrange(first, expired@.len() as int),
                ),
                forall|i: int, j: int|
                    first <= i < j < expired@.len() ==> (#[trigger] expired@[i]).deadline_tick <= (
                    #[trigger] expired@[j]).deadline_tick,
                forall|i: int|
                    first <= i < expired@.len() ==> (#[trigger] expired@[i]).deadline_tick
                        <= self.current_tick,
                forall|key: u64| #[trigger]
                    self.timers().contains_key(key) ==> self.timers()[key].deadline_tick
                        > self.current_tick,
            decreases target_tick - self.current_tick,
        {
            let ghost nodes = self.tasks@;
            let ghost shape = self.levels.shape();
            let ghost timers_now = self.timers();
            let ghost expired_now = expired@;
            let ghost slots_now = self.slots();
            let ghost versions_now = self.versions();
            self.current_tick = self.current_tick + 1;
            proof {
                lemma_levels_sound(self.levels, nodes, Set::empty());
                assert(self.timers() =~= timers_now);
                assert(self.slots() == slots_now);
                lemma_standing(self.levels, self.tasks@, Set::empty());
                let now = self.current_tick as nat;
                assert forall|k: u64| #![trigger nodes[k]] nodes.contains_key(k) implies {
                    &&& placed_node(nodes[k], shape, now, shape.len() as int)
                    &&& nodes[k].deadline_tick >= now
                } by {
                    assert(timers_now.contains_key(k));
                    assert(placed_node(nodes[k], shape, (now - 1) as nat, 0));
                    lemma_levels_hold(self.levels, nodes, Set::empty(), k);
                    if nodes[k].level > 0 {
                        let unit = shape[nodes[k].level as int].unit;
                        assert(unit >= 1);
                        lemma_next_unit((now - 1) as nat, unit);
                    }
                }
            }
            self.process_tick(expired, Ghost(all), Ghost(first));
            proof {
                lemma_vacated_on(old(self).versions(), versions_now, self.versions());
                let more = expired@.subrange(expired_now.len() as int, expired@.len() as int);
                lemma_order_on(
                    old(self).slots(),
                    old(self).timers(),
                    slots_now,
                    timers_now,
                    self.slots(),
                    expired_now.subrange(first, expired_now.len() as int),
                    more,
                );
                lemma_moved_on(
                    old(self).timers(),
                    timers_now,
                    self.timers(),
                    expired_now.subrange(first, expired_now.len() as int),
                    more,
                );
                assert(expired@.subrange(first, expired@.len() as int) =~= expired_now.subrange(
                    first,
                    expired_now.len() as int,
                ) + more);
                assert(expired@.subrange(0, first) =~= expired_now.subrange(0, first));
                assert forall|i: int| first <= i < expired@.len() implies (
                #[trigger] expired@[i]).deadline_tick <= self.current_tick && (i
                    >= expired_now.len() ==> expired@[i].deadline_tick == self.current_tick) by {
                    if i < expired_now.len() {
                        assert(expired@[i] == expired_now[i]);
                    } else {
                        assert(expired@[i] == more[i - expired_now.len()]);
                    }
                }
                assert forall|i: int, j: int| first <= i < j < expired@.len() implies (
                #[trigger] expired@[i]).deadline_tick <= (#[trigger] expired@[j]).deadline_tick by {
                    if j < expired_now.len() {
                        assert(expired@[i] == expired_now[i]);
                        assert(expired@[j] == expired_now[j]);
                    }
                }
            }
        }
        proof {
            let gone = expired@.subrange(first, expired@.len() as int);
            assert(expired@ =~= old(expired)@ + gone);
            assert forall|key: u64| #[trigger] old(self).timers().contains_key(key) implies (
            self.timers().contains_key(key) <==> old(self).timers()[key].deadline_tick
                > target_tick) by {
                if !self.timers().contains_key(key) {
                    let i = choose|i: int|
                        0 <= i < gone.len() && (#[trigger] gone[i]).id.value() == key;
                    assert(gone[i] == expired@[first + i]);
                }
            }
        }
    }

    /// Moves the clock to `target_tick` at once and places every timer anew.
    #[verifier::rlimit(60)]
    #[verifier::spinoff_prover]
    fn fast_forward(&mut self, target_tick: u64, expired: &mut Vec<Expired<T>>)
        requires
            old(self).settled(0, Set::empty()),
            old(self).current_tick <= target_tick,
        ensures
            final(self).settled(0, Set::empty()),
            final(self).current_tick == target_tick,
            final(self).remainder_nanos == old(self).remainder_nanos,
            final(self).base_tick_nanos == old(self).base_tick_nanos,
            final(self).levels.shape() == old(self).levels.shape(),
            vacated(old(self).versions(), final(self).versions()),
            ({
                let gone = final(expired)@.subrange(
                    old(expired)@.len() as int,
                    final(expired)@.len() as int,
                );
                &&& final(expired)@.len() >= old(expired)@.len()
                &&& final(expired)@ == old(expired)@ + gone
                &&& moved(old(self).timers(), final(self).timers(), gone)
                &&& forall|key: u64| #[trigger]
                    old(self).timers().contains_key(key) ==> (final(self).timers().contains_key(key)
                        <==> old(self).timers()[key].deadline_tick > target_tick)
                &&& forall|i: int, j: int|
                    0 <= i < j < gone.len() ==> key_index((#[trigger] gone[i]).id.value())
                        < key_index((#[trigger] gone[j]).id.value())
                &&& in_storage_order(final(self).slots())
                &&& exists|keys: Seq<u64>| #[trigger]
                    lists_keys(keys, old(self).timers()) && (Firing {
                        slots: final(self).slots(),
                        fired: numbers_of(gone),
                    }) == settled_run(
                        Firing { slots: blank_slots(old(self).levels.shape()), fired: Seq::empty() },
                        keys,
                        keys.len() as int,
                        old(self).timers(),
                        old(self).levels.shape(),
                        target_tick as nat,
                    )
            }),
    {
        let keys: Vec<u64> = self.tasks.keys();
        proof {
            lemma_levels_sound(self.levels, self.tasks@, Set::empty());
        }
        self.levels.clear();
        self.current_tick = target_tick;
        let ghost mut out = self.tasks@.dom();
        let ghost first = old(expired)@.len() as int;
        let ghost all = old(self).timers();
        let ghost begun = Firing {
            slots: blank_slots(old(self).levels.shape()),
            fired: Seq::empty(),
        };
        proof {
            lemma_levels_empty(self.levels, self.tasks@, out);
            assert(self.timers() =~= old(self).timers());
            assert forall|i: int| 0 <= i < keys@.len() implies out.contains(
                #[trigger] keys@[i],
            ) by {
                assert(keys@.contains(keys@[i]));
            }
            assert forall|k: u64| #[trigger] out.contains(k) implies exists|i: int|
                0 <= i < keys@.len() && #[trigger] keys@[i] == k by {
                assert(keys@.contains(k));
            }
            assert(expired@.subrange(0, first) =~= old(expired)@);
            assert(expired@.subrange(first, first) =~= Seq::empty());
            lemma_standing(self.levels, self.tasks@, out);
            old(self).lemma_timer_keys();
            assert(lists_keys(keys@, all));
            assert(self.slots() =~= begun.slots);
            assert(firing_at(self.slots(), expired@, first) =~= begun);
        }
        let mut index: usize = 0;
        while index < keys.len()
            invariant
                index <= keys@.len(),
                first == old(expired)@.len(),
                all == old(self).timers(),
                firing_at(self.slots(), expired@, first) == settled_run(
                    begun,
                    keys@,
                    index as int,
                    all,
                    self.levels.shape(),
                    target_tick as nat,
                ),
                self.settled(0, out),
                self.current_tick == target_tick,
                self.remainder_nanos == old(self).remainder_nanos,
                self.base_tick_nanos == old(self).base_tick_nanos,
                self.levels.shape() == old(self).levels.shape(),
                vacated(old(self).versions(), self.versions()),
                expired@.len() >= first,
                expired@.subrange(0, first) == old(expired)@,
                moved(
                    old(self).timers(),
                    self.timers(),
                    expired@.subrange(first, expired@.len() as int),
                ),
                forall|i: int| index <= i < keys@.len() ==> out.contains(#[trigger] keys@[i]),
                forall|i: int|
                    index <= i < keys@.len() ==> self.tasks@.contains_key(#[trigger] keys@[i]),
                forall|k: u64| #[trigger]
                    out.contains(k) ==> exists|i: int|
                        index <= i < keys@.len() && #[trigger] keys@[i] == k,
                forall|i: int, j: int|
                    0 <= i < j < keys@.len() ==> key_index(#[trigger] keys@[i]) < key_index(
                        #[trigger] keys@[j],
                    ),
                in_storage_order(self.slots()),
                forall|place: (int, int), at: int, key: u64, j: int|
                    #![trigger stands(self.slots(), place, at, key), keys@[j]]
                    stands(self.slots(), place, at, key) && index <= j < keys@.len() ==> key_index(
                        key,
                    ) < key_index(keys@[j]),
                forall|i: int, j: int|
                    first <= i < expired@.len() && index <= j < keys@.len() ==> key_index(
                        (#[trigger] expired@[i]).id.value(),
                    ) < key_index(#[trigger] keys@[j]),
                forall|i: int, j: int|
                    first <= i < j < expired@.len() ==> key_index((#[trigger] expired@[i]).id.value())
                        < key_index((#[trigger] expired@[j]).id.value()),
                forall|i: int|
                    first <= i < expired@.len() ==> (#[trigger] expired@[i]).deadline_tick
                        <= target_tick,
                forall|k: u64| #[trigger]
                    self.timers().contains_key(k) && !out.contains(k)
                        ==> self.timers()[k].deadline_tick > target_tick,
            decreases keys@.len() - index,
        {
            let key: u64 = keys[index];
            let ghost timers_now = self.timers();
            let ghost expired_now = expired@;
            let ghost slots_now = self.slots();
            let ghost versions_now = self.versions();
            let ghost nodes_now = self.tasks@;
            let ghost to = self.place_of(timers_now[key].deadline_tick);
            self.settle(key, expired, Ghost(out), Ghost(0));
            proof {
                if timers_now[key].deadline_tick > target_tick {
                    let later = keys@.subrange(index as int, keys@.len() as int);
                    lemma_joined_in_order(slots_now, self.slots(), to, key, later);
                    assert forall|place: (int, int), at: int, other: u64, j: int|
                        #![trigger stands(self.slots(), place, at, other), keys@[j]]
                        stands(self.slots(), place, at, other) && index < j
                            < keys@.len() implies key_index(other) < key_index(keys@[j]) by {
                        assert(later[j - index] == keys@[j]);
                    }
                }
                lemma_vacated_on(old(self).versions(), versions_now, self.versions());
                assert(all[key] == timers_now[key]);
                let next_index = index + 1;
                assert(keys@[next_index - 1] == key);
                if timers_now[key].deadline_tick <= target_tick {
                    lemma_numbers_grow(expired_now, expired@, first);
                }
                assert(firing_at(self.slots(), expired@, first) =~= settled_run(
                    begun,
                    keys@,
                    next_index as int,
                    all,
                    self.levels.shape(),
                    target_tick as nat,
                ));
                let out_before = out;
                out = out.remove(key);
                assert forall|i: int| index < i < keys@.len() implies out.contains(
                    #[trigger] keys@[i],
                ) && self.tasks@.contains_key(keys@[i]) by {
                    assert(key_index(keys@[index as int]) < key_index(keys@[i]));
                    assert(out_before.contains(keys@[i]));
                }
                assert forall|k: u64| #[trigger] out.contains(k) implies exists|i: int|
                    index + 1 <= i < keys@.len() && #[trigger] keys@[i] == k by {
                    assert(out_before.contains(k));
                    let i = choose|i: int| index <= i < keys@.len() && #[trigger] keys@[i] == k;
                    assert(keys@[i] == k);
                    assert(i != index);
                }
                let gone = expired_now.subrange(first, expired_now.len() as int);
                if timers_now[key].deadline_tick <= target_tick {
                    let more = seq![expired@.last()];
                    assert(moved(timers_now, self.timers(), more)) by {
                        assert(more[0].id.value() == key);
                    }
                    lemma_moved_on(old(self).timers(), timers_now, self.timers(), gone, more);
                    assert(expired@.subrange(first, expired@.len() as int) =~= gone + more);
                    assert(expired@.subrange(0, first) =~= expired_now.subrange(0, first));
                    assert forall|i: int| first <= i < expired_now.len() implies (
                    #[trigger] expired@[i]) == expired_now[i] by {}
                }
            }
            index = index + 1;
        }
        proof {
            assert(out =~= Set::empty()) by {
                assert forall|k: u64| !out.contains(k) by {
                    if out.contains(k) {
                        let i = choose|i: int| index <= i < keys@.len() && #[trigger] keys@[i] == k;
                    }
                }
            }
            let gone = expired@.subrange(first, expired@.len() as int);
            assert(expired@ =~= old(expired)@ + gone);
            assert forall|key: u64| #[trigger] old(self).timers().contains_key(key) implies (
            self.timers().contains_key(key) <==> old(self).timers()[key].deadline_tick
                > target_tick) by {
                if !self.timers().contains_key(key) {
                    let i = choose|i: int|
                        0 <= i < gone.len() && (#[trigger] gone[i]).id.value() == key;
                    assert(gone[i] == expired@[first + i]);
                }
            }
        }
    }

    /// The time left until the tick `deadline_tick` begins.
    fn duration_until_tick(&self, deadline_tick: u64) -> (result: Result<Duration, TimerError>)
        requires
            self.remainder_nanos < self.base_tick_nanos,
        ensures
            ({
                let nanos = nanos_until(
                    deadline_tick,
                    self.tick(),
                    self.remainder(),
                    self.tick_nanos(),
                );
                match result {
                    Ok(left) => left@ == nanos,
                    Err(error) => nanos > MAX_NANOS && error == TimerError::DeadlineOverflow,
                }
            }),
    {
        if deadline_tick <= self.current_tick {
            return Ok(Duration::zero());
        }
        let ticks: u64 = deadline_tick - self.current_tick;
        proof {
            let base = self.base_tick_nanos;
            assert(base <= ticks * base <= 0xffff_ffff_ffff_ffff * 0xffff_ffff_ffff_ffff)
                by (nonlinear_arith)
                requires
                    1 <= ticks,
                    ticks <= 0xffff_ffff_ffff_ffff,
                    base <= 0xffff_ffff_ffff_ffff,
            ;
        }
        let nanos: u128 = ticks as u128 * self.base_tick_nanos as u128
            - self.remainder_nanos as u128;
        match Duration::checked_from_nanos(nanos) {
            Some(left) => Ok(left),
            None => Err(TimerError::DeadlineOverflow),
        }
    }
}

/// The timers are among these.
spec fn agrees<T>(all: Map<u64, Timer<T>>, timers: Map<u64, Timer<T>>) -> bool {
    forall|key: u64| #[trigger] timers.contains_key(key) ==> all[key] == timers[key]
}

/// The slots, and the timers that have fired from `first` on.
spec fn firing_at<T>(
    slots: Map<(int, int), Seq<u64>>,
    expired: Seq<Expired<T>>,
    first: int,
) -> Firing {
    Firing { slots, fired: numbers_of(expired.subrange(first, expired.len() as int)) }
}

/// A timer more has fired.
proof fn lemma_numbers_grow<T>(expired: Seq<Expired<T>>, more: Seq<Expired<T>>, first: int)
    requires
        0 <= first <= expired.len(),
        more == expired.push(more.last()),
    ensures
        numbers_of(more.subrange(first, more.len() as int)) == numbers_of(
            expired.subrange(first, expired.len() as int),
        ).push(more.last().id.value()),
{
    assert(numbers_of(more.subrange(first, more.len() as int)) =~= numbers_of(
        expired.subrange(first, expired.len() as int),
    ).push(more.last().id.value()));
}

/// From `expired` to `more`, exactly timers that were due at `tick` were fired,
/// and they left the wheel.
spec fn fired_at<T>(
    before: Map<u64, Timer<T>>,
    after: Map<u64, Timer<T>>,
    expired: Seq<Expired<T>>,
    more: Seq<Expired<T>>,
    tick: u64,
) -> bool {
    let gone = more.subrange(expired.len() as int, more.len() as int);
    &&& more.len() >= expired.len()
    &&& more.subrange(0, expired.len() as int) == expired
    &&& moved(before, after, gone)
    &&& forall|i: int| 0 <= i < gone.len() ==> (#[trigger] gone[i]).deadline_tick == tick
}

proof fn lemma_fired_none<T>(timers: Map<u64, Timer<T>>, expired: Seq<Expired<T>>, tick: u64)
    ensures
        fired_at(timers, timers, expired, expired, tick),
{
    assert(expired.subrange(0, expired.len() as int) =~= expired);
}

proof fn lemma_fired_on<T>(
    first: Map<u64, Timer<T>>,
    second: Map<u64, Timer<T>>,
    third: Map<u64, Timer<T>>,
    expired: Seq<Expired<T>>,
    more: Seq<Expired<T>>,
    most: Seq<Expired<T>>,
    tick: u64,
)
    requires
        fired_at(first, second, expired, more, tick),
        fired_at(second, third, more, most, tick),
    ensures
        fired_at(first, third, expired, most, tick),
{
    let gone = more.subrange(expired.len() as int, more.len() as int);
    let next = most.subrange(more.len() as int, most.len() as int);
    let all = most.subrange(expired.len() as int, most.len() as int);
    assert(more =~= most.subrange(0, more.len() as int));
    assert(all =~= gone + next) by {
        assert forall|i: int| 0 <= i < gone.len() implies all[i] == gone[i] by {
            assert(gone[i] == more[expired.len() + i]);
        }
    }
    lemma_moved_on(first, second, third, gone, next);
    assert(most.subrange(0, expired.len() as int) =~= expired) by {
        assert forall|i: int| 0 <= i < expired.len() implies most[i] == expired[i] by {
            assert(more[i] == more.subrange(0, expired.len() as int)[i]);
        }
    }
    assert forall|i: int| 0 <= i < all.len() implies (#[trigger] all[i]).deadline_tick == tick by {
        if i < gone.len() {
            assert(all[i] == gone[i]);
        } else {
            assert(all[i] == next[i - gone.len()]);
        }
    }
}

proof fn lemma_fired_one<T>(
    first: Map<u64, Timer<T>>,
    second: Map<u64, Timer<T>>,
    third: Map<u64, Timer<T>>,
    expired: Seq<Expired<T>>,
    more: Seq<Expired<T>>,
    most: Seq<Expired<T>>,
    tick: u64,
    key: u64,
)
    requires
        fired_at(first, second, expired, more, tick),
        second.contains_key(key),
        second[key].deadline_tick == tick,
        third == second.remove(key),
        most == more.push(most.last()),
        most.last().id.value() == key,
        most.last().item == second[key].item,
        most.last().deadline_tick == tick,
    ensures
        fired_at(first, third, expired, most, tick),
{
    let last = most.subrange(more.len() as int, most.len() as int);
    assert(last.len() == 1 && last[0] == most.last());
    assert(most.subrange(0, more.len() as int) =~= more);
    assert(moved(second, third, last)) by {
        assert(last[0].id.value() == key);
    }
    lemma_fired_on(first, second, third, expired, more, most, tick);
}

/// Two spans of firing in a row, in each of which the order is kept.
proof fn lemma_order_fired<T>(
    first_slots: Map<(int, int), Seq<u64>>,
    first: Map<u64, Timer<T>>,
    second_slots: Map<(int, int), Seq<u64>>,
    second: Map<u64, Timer<T>>,
    third_slots: Map<(int, int), Seq<u64>>,
    third: Map<u64, Timer<T>>,
    expired: Seq<Expired<T>>,
    more: Seq<Expired<T>>,
    most: Seq<Expired<T>>,
    tick: u64,
)
    requires
        fired_at(first, second, expired, more, tick),
        fired_at(second, third, more, most, tick),
        order_kept(
            first_slots,
            first,
            second_slots,
            more.subrange(expired.len() as int, more.len() as int),
        ),
        order_kept(
            second_slots,
            second,
            third_slots,
            most.subrange(more.len() as int, most.len() as int),
        ),
        forall|place: (int, int), at: int, key: u64| #[trigger]
            stands(second_slots, place, at, key) ==> second.contains_key(key),
    ensures
        order_kept(
            first_slots,
            first,
            third_slots,
            most.subrange(expired.len() as int, most.len() as int),
        ),
{
    let gone = more.subrange(expired.len() as int, more.len() as int);
    let next = most.subrange(more.len() as int, most.len() as int);
    let all = most.subrange(expired.len() as int, most.len() as int);
    assert(more =~= most.subrange(0, more.len() as int));
    assert(all =~= gone + next) by {
        assert forall|i: int| 0 <= i < gone.len() implies all[i] == gone[i] by {
            assert(gone[i] == more[expired.len() + i]);
        }
    }
    lemma_order_on(first_slots, first, second_slots, second, third_slots, gone, next);
}

/// The next tick is in the same unit, or it begins the next one.
proof fn lemma_next_unit(now: nat, unit: nat)
    requires
        unit >= 1,
    ensures
        (now + 1) / unit == now / unit || ((now + 1) / unit == now / unit + 1 && (now + 1) % unit
            == 0),
{
    vstd::arithmetic::div_mod::lemma_fundamental_div_mod(now as int, unit as int);
    vstd::arithmetic::div_mod::lemma_fundamental_div_mod((now + 1) as int, unit as int);
    let quotient = now / unit;
    let rest = now % unit;
    if rest + 1 == unit {
        assert(now + 1 == (quotient + 1) * unit + 0) by (nonlinear_arith)
            requires
                now == unit * quotient + rest,
                rest + 1 == unit,
        ;
        vstd::arithmetic::div_mod::lemma_fundamental_div_mod_converse(
            (now + 1) as int,
            unit as int,
            (quotient + 1) as int,
            0,
        );
    } else {
        assert(now + 1 == quotient * unit + (rest + 1)) by (nonlinear_arith)
            requires
                now == unit * quotient + rest,
        ;
        vstd::arithmetic::div_mod::lemma_fundamental_div_mod_converse(
            (now + 1) as int,
            unit as int,
            quotient as int,
            (rest + 1) as int,
        );
    }
}

/// `keys` are the keys of the timers, each once, in the order of storage.
pub open spec fn lists_keys<T>(keys: Seq<u64>, timers: Map<u64, Timer<T>>) -> bool {
    &&& forall|key: u64| #[trigger] keys.contains(key) <==> timers.contains_key(key)
    &&& forall|i: int, j: int|
        0 <= i < j < keys.len() ==> key_index(#[trigger] keys[i]) < key_index(#[trigger] keys[j])
}

} // verus!
