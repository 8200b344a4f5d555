//! The shape of a wheel, and where in it a timer goes.

use vstd::prelude::*;

use crate::time_wheel::config::level_unit;

verus! {

/// The numbers of a level.
pub struct LevelShape {
    /// Ticks that one slot spans.
    pub unit: nat,
    /// Ticks that all slots span.
    pub span: nat,
    /// Number of slots.
    pub count: nat,
}

/// The levels with these numbers of slots.
pub open spec fn shape_for(slots: Seq<usize>) -> Seq<LevelShape> {
    Seq::new(
        slots.len(),
        |level: int|
            LevelShape {
                unit: level_unit(slots, level),
                span: level_unit(slots, level + 1),
                count: slots[level] as nat,
            },
    )
}

/// Whether there is such a slot.
pub open spec fn in_shape(shape: Seq<LevelShape>, level: int, slot: int) -> bool {
    0 <= level < shape.len() && 0 <= slot < shape[level].count
}

/// Where a timer that is due at `deadline` is put at the tick `now`: in the
/// lowest level that spans the time left, or else in the highest.
pub open spec fn level_for(shape: Seq<LevelShape>, now: nat, deadline: nat, from: int) -> int
    decreases shape.len() - from,
{
    if from >= shape.len() - 1 {
        shape.len() - 1
    } else if deadline < now + shape[from].span {
        from
    } else {
        level_for(shape, now, deadline, from + 1)
    }
}

/// The slot to which a timer goes at the tick `now` that is due at `deadline`.
pub open spec fn place_at(shape: Seq<LevelShape>, now: nat, deadline: nat) -> (int, int) {
    let level = level_for(shape, now, deadline, 0);
    (level, ((deadline / shape[level].unit) % shape[level].count) as int)
}

/// The slots that there are, without any timer.
pub open spec fn blank_slots(shape: Seq<LevelShape>) -> Map<(int, int), Seq<u64>> {
    Map::new(
        |place: (int, int)| in_shape(shape, place.0, place.1),
        |place: (int, int)| Seq::<u64>::empty(),
    )
}

/// The slots with a timer at the end of the list of one.
pub open spec fn slots_with(
    slots: Map<(int, int), Seq<u64>>,
    place: (int, int),
    key: u64,
) -> Map<(int, int), Seq<u64>> {
    slots.insert(place, slots[place].push(key))
}

/// A list without a timer.
pub open spec fn without_one(list: Seq<u64>, key: u64) -> Seq<u64> {
    if list.contains(key) {
        list.remove(list.index_of(key))
    } else {
        list
    }
}

/// The slots without a timer.
pub open spec fn slots_without(
    slots: Map<(int, int), Seq<u64>>,
    key: u64,
) -> Map<(int, int), Seq<u64>> {
    slots.map_values(|list: Seq<u64>| without_one(list, key))
}

/// The slots without any timer.
pub open spec fn slots_emptied(slots: Map<(int, int), Seq<u64>>) -> Map<(int, int), Seq<u64>> {
    slots.map_values(|list: Seq<u64>| Seq::<u64>::empty())
}

} // verus!
