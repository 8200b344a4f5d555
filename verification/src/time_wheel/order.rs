//! The order of the timers in the slots, and how it lasts.

use vstd::prelude::*;

use crate::time_wheel::shape::{place_at, slots_with, LevelShape};
use crate::time_wheel::table::key_index;
use crate::time_wheel::wheel::{Expired, Timer};

verus! {

/// A timer stands at this place of the list of this slot.
pub open spec fn stands(
    slots: Map<(int, int), Seq<u64>>,
    place: (int, int),
    at: int,
    key: u64,
) -> bool {
    slots.contains_key(place) && 0 <= at < slots[place].len() && slots[place][at] == key
}

/// Two timers are in one slot, `left` before `right`.
pub open spec fn ahead(slots: Map<(int, int), Seq<u64>>, left: u64, right: u64) -> bool {
    exists|place: (int, int), i: int, j: int|
        i < j && #[trigger] stands(slots, place, i, left) && #[trigger] stands(
            slots,
            place,
            j,
            right,
        )
}

/// A timer went to the end of the list of a slot.
pub open spec fn slot_joined(
    before: Map<(int, int), Seq<u64>>,
    after: Map<(int, int), Seq<u64>>,
    place: (int, int),
    key: u64,
) -> bool {
    before.contains_key(place) && after == slots_with(before, place, key)
}

/// A timer was taken out of the list of its slot.
pub open spec fn slot_left(
    before: Map<(int, int), Seq<u64>>,
    after: Map<(int, int), Seq<u64>>,
    key: u64,
) -> bool {
    exists|place: (int, int), at: int| #[trigger]
        stands(before, place, at, key) && after == before.insert(place, before[place].remove(at))
}

/// A timer was taken out of its slot and went to the end of another.
pub open spec fn slot_moved(
    before: Map<(int, int), Seq<u64>>,
    after: Map<(int, int), Seq<u64>>,
    place: (int, int),
    key: u64,
) -> bool {
    exists|middle: Map<(int, int), Seq<u64>>| #[trigger]
        slot_left(before, middle, key) && slot_joined(middle, after, place, key)
}

/// Two timers fired, `left` before `right`.
pub open spec fn fired_before<T>(gone: Seq<Expired<T>>, left: u64, right: u64) -> bool {
    exists|i: int, j: int|
        0 <= i < j < gone.len() && (#[trigger] gone[i]).id.value() == left && (
        #[trigger] gone[j]).id.value() == right
}

/// Timers of one slot and one deadline keep their order: both stay, or both fire,
/// and the one that was before the other is still so.
pub open spec fn order_kept<T>(
    before: Map<(int, int), Seq<u64>>,
    timers: Map<u64, Timer<T>>,
    after: Map<(int, int), Seq<u64>>,
    gone: Seq<Expired<T>>,
) -> bool {
    forall|left: u64, right: u64| #[trigger]
        ahead(before, left, right) && timers[left].deadline_tick == timers[right].deadline_tick
            ==> ahead(after, left, right) || fired_before(gone, left, right)
}

/// The timers of each slot are in the order of their storage.
pub open spec fn in_storage_order(slots: Map<(int, int), Seq<u64>>) -> bool {
    forall|place: (int, int), i: int, j: int, left: u64, right: u64|
        i < j && #[trigger] stands(slots, place, i, left) && #[trigger] stands(
            slots,
            place,
            j,
            right,
        ) ==> key_index(left) < key_index(right)
}

/// Who stands in a list still stands there once another has joined.
pub proof fn lemma_joined_keeps(
    before: Map<(int, int), Seq<u64>>,
    after: Map<(int, int), Seq<u64>>,
    to: (int, int),
    key: u64,
)
    requires
        slot_joined(before, after, to, key),
    ensures
        stands(after, to, before[to].len() as int, key),
        forall|place: (int, int), at: int, other: u64| #[trigger]
            stands(before, place, at, other) ==> stands(after, place, at, other),
        forall|left: u64, right: u64| #[trigger]
            ahead(before, left, right) ==> ahead(after, left, right),
{
    assert forall|left: u64, right: u64| #[trigger] ahead(before, left, right) implies ahead(
        after,
        left,
        right,
    ) by {
        let (place, i, j) = choose|place: (int, int), i: int, j: int|
            i < j && #[trigger] stands(before, place, i, left) && #[trigger] stands(
                before,
                place,
                j,
                right,
            );
        assert(stands(after, place, i, left) && stands(after, place, j, right));
    }
}

/// The others of a list keep their order once one has left.
pub proof fn lemma_left_keeps(
    before: Map<(int, int), Seq<u64>>,
    after: Map<(int, int), Seq<u64>>,
    key: u64,
)
    requires
        slot_left(before, after, key),
    ensures
        forall|left: u64, right: u64| #[trigger]
            ahead(before, left, right) && left != key && right != key ==> ahead(
                after,
                left,
                right,
            ),
{
    let (from, gap) = choose|place: (int, int), at: int| #[trigger]
        stands(before, place, at, key) && after == before.insert(
            place,
            before[place].remove(at),
        );
    assert forall|left: u64, right: u64| #[trigger]
        ahead(before, left, right) && left != key && right != key implies ahead(
        after,
        left,
        right,
    ) by {
        let (place, i, j) = choose|place: (int, int), i: int, j: int|
            i < j && #[trigger] stands(before, place, i, left) && #[trigger] stands(
                before,
                place,
                j,
                right,
            );
        let first = if place == from && i > gap {
            i - 1
        } else {
            i
        };
        let second = if place == from && j > gap {
            j - 1
        } else {
            j
        };
        assert(stands(after, place, first, left) && stands(after, place, second, right));
    }
}

/// Two spans in a row, in each of which the order is kept.
pub proof fn lemma_order_on<T>(
    first: Map<(int, int), Seq<u64>>,
    timers: Map<u64, Timer<T>>,
    second: Map<(int, int), Seq<u64>>,
    timers_between: Map<u64, Timer<T>>,
    third: Map<(int, int), Seq<u64>>,
    gone: Seq<Expired<T>>,
    more: Seq<Expired<T>>,
)
    requires
        order_kept(first, timers, second, gone),
        order_kept(second, timers_between, third, more),
        forall|key: u64, place: (int, int), at: int| #[trigger]
            stands(second, place, at, key) ==> timers_between[key] == timers[key],
    ensures
        order_kept(first, timers, third, gone + more),
{
    let all = gone + more;
    assert forall|left: u64, right: u64| #[trigger]
        ahead(first, left, right) && timers[left].deadline_tick
            == timers[right].deadline_tick implies ahead(third, left, right) || fired_before(
        all,
        left,
        right,
    ) by {
        if fired_before(gone, left, right) {
            let (i, j) = choose|i: int, j: int|
                0 <= i < j < gone.len() && (#[trigger] gone[i]).id.value() == left && (
                #[trigger] gone[j]).id.value() == right;
            assert(all[i] == gone[i] && all[j] == gone[j]);
        } else {
            assert(ahead(second, left, right));
            if fired_before(more, left, right) {
                let (i, j) = choose|i: int, j: int|
                    0 <= i < j < more.len() && (#[trigger] more[i]).id.value() == left && (
                    #[trigger] more[j]).id.value() == right;
                assert(all[gone.len() + i] == more[i] && all[gone.len() + j] == more[j]);
            }
        }
    }
}

/// The order of storage is kept where timers join in that order.
pub proof fn lemma_joined_in_order(
    before: Map<(int, int), Seq<u64>>,
    after: Map<(int, int), Seq<u64>>,
    to: (int, int),
    key: u64,
    later: Seq<u64>,
)
    requires
        slot_joined(before, after, to, key),
        in_storage_order(before),
        later.len() > 0 && later[0] == key,
        forall|place: (int, int), at: int, other: u64, j: int|
            #![trigger stands(before, place, at, other), later[j]]
            stands(before, place, at, other) && 0 <= j < later.len() ==> key_index(other)
                < key_index(later[j]),
        forall|i: int, j: int|
            0 <= i < j < later.len() ==> key_index(#[trigger] later[i]) < key_index(
                #[trigger] later[j],
            ),
    ensures
        in_storage_order(after),
        forall|place: (int, int), at: int, other: u64, j: int|
            #![trigger stands(after, place, at, other), later[j]]
            stands(after, place, at, other) && 0 < j < later.len() ==> key_index(other)
                < key_index(later[j]),
{
    let end = before[to].len() as int;
    assert forall|place: (int, int), at: int, other: u64| #[trigger]
        stands(after, place, at, other) implies stands(before, place, at, other) || (place == to
        && at == end && other == key) by {}
    assert forall|place: (int, int), i: int, j: int, left: u64, right: u64|
        i < j && #[trigger] stands(after, place, i, left) && #[trigger] stands(
            after,
            place,
            j,
            right,
        ) implies key_index(left) < key_index(right) by {
        assert(stands(before, place, i, left));
        if !stands(before, place, j, right) {
            assert(later[0] == right);
        }
    }
}

/// Of the timers of a slot that are settled in turn, the first `at` are: those that
/// are due have fired, the others stand where they belong, and those of one
/// deadline are in order. The other slots lost nobody.
pub open spec fn chain_kept<T>(
    chain: Seq<u64>,
    at: int,
    place: (int, int),
    before: Map<(int, int), Seq<u64>>,
    slots: Map<(int, int), Seq<u64>>,
    timers: Map<u64, Timer<T>>,
    gone: Seq<Expired<T>>,
    shape: Seq<LevelShape>,
    now: nat,
) -> bool {
    &&& forall|p: int, q: int|
        #![trigger chain[p], chain[q]]
        0 <= p < q < at && timers[chain[p]].deadline_tick == timers[chain[q]].deadline_tick
            ==> ahead(slots, chain[p], chain[q]) || fired_before(gone, chain[p], chain[q])
    &&& forall|p: int|
        #![trigger chain[p]]
        0 <= p < at ==> if timers[chain[p]].deadline_tick <= now {
            exists|i: int| 0 <= i < gone.len() && (#[trigger] gone[i]).id.value() == chain[p]
        } else {
            exists|i: int| #[trigger]
                stands(
                    slots,
                    place_at(shape, now, timers[chain[p]].deadline_tick as nat),
                    i,
                    chain[p],
                )
        }
    &&& forall|other: (int, int), i: int, key: u64|
        other != place && #[trigger] stands(before, other, i, key) ==> stands(
            slots,
            other,
            i,
            key,
        )
}

/// The next timer of the chain fires.
pub proof fn lemma_chain_fires<T>(
    chain: Seq<u64>,
    at: int,
    place: (int, int),
    before: Map<(int, int), Seq<u64>>,
    slots: Map<(int, int), Seq<u64>>,
    timers: Map<u64, Timer<T>>,
    gone: Seq<Expired<T>>,
    more: Seq<Expired<T>>,
    shape: Seq<LevelShape>,
    now: nat,
)
    requires
        chain_kept(chain, at, place, before, slots, timers, gone, shape, now),
        0 <= at < chain.len(),
        timers[chain[at]].deadline_tick <= now,
        more.len() == gone.len() + 1,
        forall|i: int| 0 <= i < gone.len() ==> #[trigger] more[i] == gone[i],
        more.last().id.value() == chain[at],
    ensures
        chain_kept(chain, at + 1, place, before, slots, timers, more, shape, now),
{
    assert forall|p: int, q: int|
        #![trigger chain[p], chain[q]]
        0 <= p < q < at + 1 && timers[chain[p]].deadline_tick
            == timers[chain[q]].deadline_tick implies ahead(slots, chain[p], chain[q])
        || fired_before(more, chain[p], chain[q]) by {
        if q == at {
            let i = choose|i: int|
                0 <= i < gone.len() && (#[trigger] gone[i]).id.value() == chain[p];
            assert(more[i] == gone[i]);
            assert(more[more.len() - 1].id.value() == chain[q]);
        } else if fired_before(gone, chain[p], chain[q]) {
            let (i, j) = choose|i: int, j: int|
                0 <= i < j < gone.len() && (#[trigger] gone[i]).id.value() == chain[p] && (
                #[trigger] gone[j]).id.value() == chain[q];
            assert(more[i] == gone[i] && more[j] == gone[j]);
        }
    }
    assert forall|p: int|
        #![trigger chain[p]]
        0 <= p < at + 1 && timers[chain[p]].deadline_tick <= now implies exists|i: int|
        0 <= i < more.len() && (#[trigger] more[i]).id.value() == chain[p] by {
        if p == at {
            assert(more[more.len() - 1].id.value() == chain[p]);
        } else {
            let i = choose|i: int|
                0 <= i < gone.len() && (#[trigger] gone[i]).id.value() == chain[p];
            assert(more[i] == gone[i]);
        }
    }
}

/// The next timer of the chain goes where it belongs.
pub proof fn lemma_chain_joins<T>(
    chain: Seq<u64>,
    at: int,
    place: (int, int),
    before: Map<(int, int), Seq<u64>>,
    slots: Map<(int, int), Seq<u64>>,
    after: Map<(int, int), Seq<u64>>,
    timers: Map<u64, Timer<T>>,
    gone: Seq<Expired<T>>,
    shape: Seq<LevelShape>,
    now: nat,
)
    requires
        chain_kept(chain, at, place, before, slots, timers, gone, shape, now),
        0 <= at < chain.len(),
        timers[chain[at]].deadline_tick > now,
        slot_joined(
            slots,
            after,
            place_at(shape, now, timers[chain[at]].deadline_tick as nat),
            chain[at],
        ),
    ensures
        chain_kept(chain, at + 1, place, before, after, timers, gone, shape, now),
{
    let to = place_at(shape, now, timers[chain[at]].deadline_tick as nat);
    let end = slots[to].len() as int;
    lemma_joined_keeps(slots, after, to, chain[at]);
    assert forall|p: int, q: int|
        #![trigger chain[p], chain[q]]
        0 <= p < q < at + 1 && timers[chain[p]].deadline_tick
            == timers[chain[q]].deadline_tick implies ahead(after, chain[p], chain[q])
        || fired_before(gone, chain[p], chain[q]) by {
        if q == at {
            let i = choose|i: int| #[trigger] stands(slots, to, i, chain[p]);
            assert(stands(after, to, i, chain[p]) && stands(after, to, end, chain[q]));
        } else if !fired_before(gone, chain[p], chain[q]) {
            assert(ahead(slots, chain[p], chain[q]));
        }
    }
    assert forall|p: int|
        #![trigger chain[p]]
        0 <= p < at + 1 && timers[chain[p]].deadline_tick > now implies exists|i: int| #[trigger]
        stands(
            after,
            place_at(shape, now, timers[chain[p]].deadline_tick as nat),
            i,
            chain[p],
        ) by {
        let at_place = place_at(shape, now, timers[chain[p]].deadline_tick as nat);
        if p == at {
            assert(stands(after, at_place, end, chain[p]));
        } else {
            let i = choose|i: int| #[trigger] stands(slots, at_place, i, chain[p]);
            assert(stands(after, at_place, i, chain[p]));
        }
    }
}

/// Settling all timers of a slot keeps the order.
pub proof fn lemma_chain_done<T>(
    place: (int, int),
    before: Map<(int, int), Seq<u64>>,
    slots: Map<(int, int), Seq<u64>>,
    timers: Map<u64, Timer<T>>,
    gone: Seq<Expired<T>>,
    shape: Seq<LevelShape>,
    now: nat,
)
    requires
        chain_kept(
            before[place],
            before[place].len() as int,
            place,
            before,
            slots,
            timers,
            gone,
            shape,
            now,
        ),
    ensures
        order_kept(before, timers, slots, gone),
{
    assert forall|left: u64, right: u64| #[trigger]
        ahead(before, left, right) && timers[left].deadline_tick
            == timers[right].deadline_tick implies ahead(slots, left, right) || fired_before(
        gone,
        left,
        right,
    ) by {
        let (from, i, j) = choose|from: (int, int), i: int, j: int|
            i < j && #[trigger] stands(before, from, i, left) && #[trigger] stands(
                before,
                from,
                j,
                right,
            );
        if from == place {
            assert(before[place][i] == left && before[place][j] == right);
        } else {
            assert(stands(slots, from, i, left) && stands(slots, from, j, right));
        }
    }
}

} // verus!
