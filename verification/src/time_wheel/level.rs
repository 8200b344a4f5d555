//! The levels of a wheel: slots, each with a doubly linked list of timers.

use vstd::arithmetic::power2::{lemma2_to64, lemma_pow2_strictly_increases, pow2};
use vstd::prelude::*;

use crate::time_wheel::config::{
    level_matches, level_unit, valid_slot_count, LevelConfig, MAX_LEVELS, MAX_LEVEL_SLOTS,
    WheelConfig,
};
use crate::time_wheel::shape::{in_shape, level_for, LevelShape};
use crate::time_wheel::table::{table_versions, TaskNode, TaskTable};

verus! {

/// The ends of the list of one slot.
#[derive(Debug, Clone, Copy, PartialEq, Eq, Structural)]
pub struct Slot {
    /// First timer.
    pub head: Option<u64>,
    /// Last timer.
    pub tail: Option<u64>,
}

/// One level.
pub struct Level {
    /// Ticks that one slot spans.
    pub unit_ticks: u64,
    /// Ticks that all slots span.
    pub span_ticks: u64,
    /// Number of slots less one.
    pub mask: usize,
    /// The slots.
    pub slots: Vec<Slot>,
}

/// The numbers of the levels.
pub open spec fn shape_of(levels: Seq<Level>) -> Seq<LevelShape> {
    Seq::new(
        levels.len(),
        |level: int|
            LevelShape {
                unit: levels[level].unit_ticks as nat,
                span: levels[level].span_ticks as nat,
                count: levels[level].slots@.len(),
            },
    )
}

/// Each level spans what one slot of the next one spans.
pub open spec fn shape_ok(shape: Seq<LevelShape>) -> bool {
    &&& 1 <= shape.len() <= MAX_LEVELS
    &&& shape[0].unit == 1
    &&& forall|level: int|
        #![trigger shape[level]]
        0 <= level < shape.len() ==> {
            &&& shape[level].unit >= 1
            &&& shape[level].span == shape[level].unit * shape[level].count
            &&& shape[level].span <= u64::MAX
            &&& 2 <= shape[level].count <= MAX_LEVEL_SLOTS
            &&& level > 0 ==> shape[level].unit == shape[level - 1].span
        }
}

/// `list` is the list of timers that the nodes link in this slot.
pub open spec fn list_ok(
    nodes: Map<u64, TaskNode>,
    list: Seq<u64>,
    level: int,
    slot: int,
) -> bool {
    &&& list.no_duplicates()
    &&& forall|i: int|
        #![trigger list[i]]
        0 <= i < list.len() ==> {
            &&& nodes.contains_key(list[i])
            &&& nodes[list[i]].level == level
            &&& nodes[list[i]].slot == slot
            &&& nodes[list[i]].prev == (if i == 0 {
                None
            } else {
                Some(list[i - 1])
            })
            &&& nodes[list[i]].next == (if i == list.len() - 1 {
                None
            } else {
                Some(list[i + 1])
            })
        }
}

/// The ends of a list.
pub open spec fn ends_ok(slot: Slot, list: Seq<u64>) -> bool {
    &&& slot.head == (if list.len() == 0 {
        None
    } else {
        Some(list[0])
    })
    &&& slot.tail == (if list.len() == 0 {
        None
    } else {
        Some(list[list.len() - 1])
    })
}

/// Every timer but those of `out` is in the list of its slot, and no other is
/// in any list.
pub open spec fn lists_ok(
    nodes: Map<u64, TaskNode>,
    lists: Map<(int, int), Seq<u64>>,
    shape: Seq<LevelShape>,
    out: Set<u64>,
) -> bool {
    &&& forall|level: int, slot: int|
        #![trigger lists[(level, slot)]]
        in_shape(shape, level, slot) ==> {
            &&& list_ok(nodes, lists[(level, slot)], level, slot)
            &&& forall|i: int|
                0 <= i < lists[(level, slot)].len() ==> !out.contains(
                    #[trigger] lists[(level, slot)][i],
                )
        }
    &&& forall|key: u64|
        #![trigger nodes[key]]
        nodes.contains_key(key) && !out.contains(key) ==> {
            &&& in_shape(shape, nodes[key].level as int, nodes[key].slot as int)
            &&& lists[(nodes[key].level as int, nodes[key].slot as int)].contains(key)
        }
}

/// The nodes differ in links alone; and, but for `key`, in no level or slot.
pub open spec fn same_but_links(
    before: Map<u64, TaskNode>,
    after: Map<u64, TaskNode>,
    key: u64,
) -> bool {
    &&& before.dom() == after.dom()
    &&& forall|k: u64|
        #![trigger after[k]]
        before.contains_key(k) ==> {
            &&& after[k].deadline_tick == before[k].deadline_tick
            &&& after[k].heap_index == before[k].heap_index
            &&& k != key ==> after[k].level == before[k].level && after[k].slot == before[k].slot
        }
}

/// For a power of two, the mask and the remainder select the same slot.
proof fn lemma_mask(number: u64, count: u64)
    requires
        2 <= count <= MAX_LEVEL_SLOTS,
        exists|exponent: nat| #[trigger] pow2(exponent) == count,
    ensures
        number & ((count - 1) as u64) == number % count,
{
    let exponent = choose|exponent: nat| #[trigger] pow2(exponent) == count;
    lemma2_to64();
    if exponent > 16 {
        lemma_pow2_strictly_increases(16, exponent);
    }
    assert(number & 1 == number % 2) by (bit_vector);
    assert(number & 3 == number % 4) by (bit_vector);
    assert(number & 7 == number % 8) by (bit_vector);
    assert(number & 15 == number % 16) by (bit_vector);
    assert(number & 31 == number % 32) by (bit_vector);
    assert(number & 63 == number % 64) by (bit_vector);
    assert(number & 127 == number % 128) by (bit_vector);
    assert(number & 255 == number % 256) by (bit_vector);
    assert(number & 511 == number % 512) by (bit_vector);
    assert(number & 1023 == number % 1024) by (bit_vector);
    assert(number & 2047 == number % 2048) by (bit_vector);
    assert(number & 4095 == number % 4096) by (bit_vector);
    assert(number & 8191 == number % 8192) by (bit_vector);
    assert(number & 16383 == number % 16384) by (bit_vector);
    assert(number & 32767 == number % 32768) by (bit_vector);
    assert(number & 65535 == number % 65536) by (bit_vector);
}

/// The nodes after the timer `key` was taken out of its list.
spec fn unlinked_node(nodes: Map<u64, TaskNode>, key: u64, k: u64) -> TaskNode {
    let node = nodes[k];
    if k == key {
        TaskNode { prev: None, next: None, ..node }
    } else {
        TaskNode {
            next: if nodes[key].prev == Some(k) {
                nodes[key].next
            } else {
                node.next
            },
            prev: if nodes[key].next == Some(k) {
                nodes[key].prev
            } else {
                node.prev
            },
            ..node
        }
    }
}

/// Taking a timer out of its list leaves the lists right.
proof fn lemma_unlinked(
    nodes_before: Map<u64, TaskNode>,
    nodes: Map<u64, TaskNode>,
    lists_before: Map<(int, int), Seq<u64>>,
    shape: Seq<LevelShape>,
    out: Set<u64>,
    key: u64,
    at: int,
)
    requires
        lists_ok(nodes_before, lists_before, shape, out),
        nodes_before.contains_key(key),
        !out.contains(key),
        nodes.dom() == nodes_before.dom(),
        forall|k: u64|
            #![trigger nodes[k]]
            nodes_before.contains_key(k) ==> nodes[k] == unlinked_node(nodes_before, key, k),
        ({
            let list = lists_before[(
                nodes_before[key].level as int,
                nodes_before[key].slot as int,
            )];
            0 <= at < list.len() && list[at] == key
        }),
    ensures
        ({
            let place = (nodes_before[key].level as int, nodes_before[key].slot as int);
            lists_ok(
                nodes,
                lists_before.insert(place, lists_before[place].remove(at)),
                shape,
                out.insert(key),
            )
        }),
{
    let level = nodes_before[key].level as int;
    let slot = nodes_before[key].slot as int;
    let list = lists_before[(level, slot)];
    assert(list_ok(nodes_before, list, level, slot));
    let shorter = list.remove(at);
    let lists = lists_before.insert((level, slot), shorter);
    let out_after = out.insert(key);
    assert(shorter.no_duplicates());
    assert forall|i: int| #![trigger shorter[i]] 0 <= i < shorter.len() implies shorter[i]
        == list[if i < at { i } else { i + 1 }] && shorter[i] != key by {}
    assert(list_ok(nodes, shorter, level, slot)) by {
        assert forall|i: int|
            #![trigger shorter[i]]
            0 <= i < shorter.len() implies {
            &&& nodes.contains_key(shorter[i])
            &&& nodes[shorter[i]].level == level
            &&& nodes[shorter[i]].slot == slot
            &&& nodes[shorter[i]].prev == (if i == 0 {
                None
            } else {
                Some(shorter[i - 1])
            })
            &&& nodes[shorter[i]].next == (if i == shorter.len() - 1 {
                None
            } else {
                Some(shorter[i + 1])
            })
        } by {
            let j = if i < at {
                i
            } else {
                i + 1
            };
            assert(shorter[i] == list[j]);
            if at > 0 {
                assert(j == at - 1 || list[j] != list[at - 1]);
            }
            if at < list.len() - 1 {
                assert(j == at + 1 || list[j] != list[at + 1]);
            }
            if i > 0 {
                assert(shorter[i - 1] == list[if i - 1 < at {
                    i - 1
                } else {
                    i
                }]);
            }
            if i < shorter.len() - 1 {
                assert(shorter[i + 1] == list[if i + 1 < at {
                    i + 1
                } else {
                    i + 2
                }]);
            }
        }
    }
    assert forall|l: int, s: int|
        #![trigger lists[(l, s)]]
        in_shape(shape, l, s) implies {
        &&& list_ok(nodes, lists[(l, s)], l, s)
        &&& forall|i: int|
            0 <= i < lists[(l, s)].len() ==> !out_after.contains(
                #[trigger] lists[(l, s)][i],
            )
    } by {
        if (l, s) == (level, slot) {
            assert forall|i: int| 0 <= i < shorter.len() implies !out_after.contains(
                #[trigger] shorter[i],
            ) by {
                assert(!out.contains(list[if i < at {
                    i
                } else {
                    i + 1
                }]));
            }
        } else {
            let same = lists_before[(l, s)];
            assert(lists[(l, s)] == same);
            assert(list_ok(nodes_before, same, l, s));
            assert forall|i: int| 0 <= i < same.len() implies nodes[#[trigger] same[i]]
                == nodes_before[same[i]] && same[i] != key by {
                if at > 0 {
                    assert(nodes_before[list[at - 1]].level == level);
                    assert(nodes_before[list[at - 1]].slot == slot);
                }
                if at < list.len() - 1 {
                    assert(nodes_before[list[at + 1]].level == level);
                    assert(nodes_before[list[at + 1]].slot == slot);
                }
            }
        }
    }
    assert forall|k: u64|
        #![trigger nodes[k]]
        nodes.contains_key(k) && !out_after.contains(k) implies {
        &&& in_shape(shape, nodes[k].level as int, nodes[k].slot as int)
        &&& lists[(nodes[k].level as int, nodes[k].slot as int)].contains(k)
    } by {
        assert(nodes_before.contains_key(k) && !out.contains(k));
        assert(nodes[k].level == nodes_before[k].level && nodes[k].slot
            == nodes_before[k].slot);
        let place = (nodes_before[k].level as int, nodes_before[k].slot as int);
        assert(lists_before[place].contains(k));
        if place == (level, slot) {
            let i = list.index_of(k);
            assert(list[i] == k);
            assert(i != at);
            assert(shorter[if i < at {
                i
            } else {
                i - 1
            }] == k);
        }
    }
}

/// The slots of all levels and the lists that hang from them.
pub struct Levels {
    levels: Vec<Level>,
    lists: Ghost<Map<(int, int), Seq<u64>>>,
}

impl Levels {
    /// The list of timers of each slot.
    pub closed spec fn lists(&self) -> Map<(int, int), Seq<u64>> {
        self.lists@
    }

    /// The numbers of the levels.
    pub closed spec fn shape(&self) -> Seq<LevelShape> {
        shape_of(self.levels@)
    }

    /// The levels are as their shape says, and their lists hold every timer but
    /// those of `out`.
    pub closed spec fn well_formed(&self, nodes: Map<u64, TaskNode>, out: Set<u64>) -> bool {
        &&& self.consistent()
        &&& lists_ok(nodes, self.lists(), self.shape(), out)
    }

    /// The slots hold the ends of the lists.
    pub closed spec fn consistent(&self) -> bool {
        &&& shape_ok(self.shape())
        &&& forall|level: int|
            #![trigger self.levels@[level]]
            0 <= level < self.levels@.len() ==> {
                &&& self.levels@[level].mask == self.levels@[level].slots@.len() - 1
                &&& valid_slot_count(self.levels@[level].slots@.len() as usize)
            }
        &&& forall|level: int, slot: int|
            #![trigger self.levels@[level].slots@[slot]]
            in_shape(self.shape(), level, slot) ==> ends_ok(
                self.levels@[level].slots@[slot],
                self.lists@[(level, slot)],
            )
    }

    /// Empty levels of the given shape.
    pub fn new(config: &WheelConfig) -> (levels: Self)
        ensures
            levels.well_formed(Map::empty(), Set::empty()),
            levels.shape().len() == config.slot_counts().len(),
            forall|level: int|
                #![trigger levels.shape()[level]]
                0 <= level < levels.shape().len() ==> {
                    &&& levels.shape()[level].count == config.slot_counts()[level]
                    &&& levels.shape()[level].unit == level_unit(config.slot_counts(), level)
                },
    {
        let configs = config.levels();
        let ghost counts = config.slot_counts();
        let mut levels: Vec<Level> = Vec::new();
        let mut index: usize = 0;
        while index < configs.len()
            invariant
                configs@.len() == counts.len(),
                index <= configs@.len(),
                levels@.len() == index,
                forall|level: int|
                    0 <= level < configs@.len() ==> level_matches(
                        #[trigger] configs@[level],
                        counts,
                        level,
                    ),
                forall|level: int|
                    #![trigger levels@[level]]
                    0 <= level < index ==> {
                        &&& levels@[level].unit_ticks == configs@[level].unit_ticks
                        &&& levels@[level].span_ticks == configs@[level].span_ticks
                        &&& levels@[level].mask == configs@[level].mask
                        &&& levels@[level].slots@.len() == configs@[level].slot_count
                        &&& forall|slot: int|
                            0 <= slot < levels@[level].slots@.len() ==> (
                            #[trigger] levels@[level].slots@[slot]) == (Slot {
                                head: None,
                                tail: None,
                            })
                    },
            decreases configs@.len() - index,
        {
            let level_config: LevelConfig = configs[index];
            let level = Level::new(
                level_config.unit_ticks,
                level_config.span_ticks,
                level_config.slot_count,
                level_config.mask,
            );
            levels.push(level);
            index = index + 1;
        }
        let ghost lists: Map<(int, int), Seq<u64>> = Map::total(|at: (int, int)| Seq::empty());
        let result = Levels { levels, lists: Ghost(lists) };
        proof {
            let shape = result.shape();
            assert forall|level: int| #![trigger shape[level]] 0 <= level < shape.len() implies {
                &&& shape[level].unit >= 1
                &&& shape[level].span == shape[level].unit * shape[level].count
                &&& shape[level].span <= u64::MAX
                &&& 2 <= shape[level].count <= MAX_LEVEL_SLOTS
                &&& level > 0 ==> shape[level].unit == shape[level - 1].span
                &&& shape[level].count == counts[level]
                &&& shape[level].unit == level_unit(counts, level)
            } by {
                assert(level_matches(configs@[level], counts, level));
                assert(levels@[level].unit_ticks == configs@[level].unit_ticks);
                lemma_unit_positive(counts, level, configs@);
                if level > 0 {
                    assert(level_matches(configs@[level - 1], counts, level - 1));
                    assert(levels@[level - 1].unit_ticks == configs@[level - 1].unit_ticks);
                }
            }
            assert(level_matches(configs@[0], counts, 0));
            assert(shape[0].unit == 1);
            assert forall|level: int, slot: int|
                #![trigger result.levels@[level].slots@[slot]]
                in_shape(shape, level, slot) implies ends_ok(
                result.levels@[level].slots@[slot],
                lists[(level, slot)],
            ) by {
                assert(result.levels@[level].slots@.len() == configs@[level].slot_count);
            }
            assert forall|level: int| #![trigger levels@[level]] 0 <= level
                < levels@.len() implies {
                &&& levels@[level].mask == levels@[level].slots@.len() - 1
                &&& valid_slot_count(levels@[level].slots@.len() as usize)
            } by {
                assert(level_matches(configs@[level], counts, level));
            }
        }
        result
    }

    /// The level and slot of a timer that is due at `deadline_tick`.
    pub fn locate(&self, current_tick: u64, deadline_tick: u64) -> (place: (usize, usize))
        requires
            self.consistent(),
            current_tick <= deadline_tick,
        ensures
            place.0 == level_for(self.shape(), current_tick as nat, deadline_tick as nat, 0),
            in_shape(self.shape(), place.0 as int, place.1 as int),
            place.1 == (deadline_tick as nat / self.shape()[place.0 as int].unit)
                % self.shape()[place.0 as int].count,
            place.0 > 0 ==> deadline_tick >= current_tick + self.shape()[place.0 as int].unit,
    {
        let delta: u64 = deadline_tick.saturating_sub(current_tick);
        let ghost shape = self.shape();
        let last: usize = self.levels.len() - 1;
        let mut selected: usize = 0;
        while selected < last && delta >= self.levels[selected].span_ticks
            invariant
                self.consistent(),
                shape == self.shape(),
                last == shape.len() - 1,
                delta == deadline_tick - current_tick,
                selected <= last,
                level_for(shape, current_tick as nat, deadline_tick as nat, 0) == level_for(
                    shape,
                    current_tick as nat,
                    deadline_tick as nat,
                    selected as int,
                ),
                selected > 0 ==> delta >= shape[selected as int].unit,
            decreases last - selected,
        {
            assert(shape[selected as int].span == self.levels@[selected as int].span_ticks);
            assert(shape[selected + 1].unit == shape[selected as int].span);
            selected = selected + 1;
        }
        let level = &self.levels[selected];
        assert(shape[selected as int].unit == level.unit_ticks);
        assert(shape[selected as int].count == level.slots@.len());
        proof {
            lemma_mask(
                (deadline_tick / level.unit_ticks) as u64,
                level.slots@.len() as u64,
            );
            assert(shape[selected as int].span == self.levels@[selected as int].span_ticks);
        }
        let slot: u64 = (deadline_tick / level.unit_ticks) & (level.mask as u64);
        (selected, slot as usize)
    }

    /// The slot of a level that is reached at `current_tick`, if one is.
    pub fn slot_at(&self, level: usize, current_tick: u64) -> (slot: Option<usize>)
        requires
            self.consistent(),
            level < self.shape().len(),
        ensures
            slot is Some <==> current_tick as nat % self.shape()[level as int].unit == 0,
            slot matches Some(at) ==> {
                &&& in_shape(self.shape(), level as int, at as int)
                &&& at == (current_tick as nat / self.shape()[level as int].unit)
                    % self.shape()[level as int].count
            },
    {
        let ghost shape = self.shape();
        let this = &self.levels[level];
        assert(shape[level as int].unit == this.unit_ticks);
        assert(shape[level as int].count == this.slots@.len());
        if current_tick % this.unit_ticks == 0 {
            let level_tick: u64 = current_tick / this.unit_ticks;
            proof {
                lemma_mask(level_tick, this.slots@.len() as u64);
            }
            let slot: u64 = level_tick & (this.mask as u64);
            Some(slot as usize)
        } else {
            None
        }
    }

    /// Number of levels.
    pub fn count(&self) -> (count: usize)
        ensures
            count == self.shape().len(),
    {
        self.levels.len()
    }

    /// Puts a timer that is in no list at the end of the list of a slot.
    pub fn link(
        &mut self,
        tasks: &mut TaskTable,
        key: u64,
        level: usize,
        slot: usize,
        Ghost(out): Ghost<Set<u64>>,
    )
        requires
            old(self).well_formed(old(tasks)@, out),
            in_shape(old(self).shape(), level as int, slot as int),
            old(tasks)@.contains_key(key),
            out.contains(key),
        ensures
            final(self).well_formed(final(tasks)@, out.remove(key)),
            final(self).shape() == old(self).shape(),
            final(self).lists() == old(self).lists().insert(
                (level as int, slot as int),
                old(self).lists()[(level as int, slot as int)].push(key),
            ),
            same_but_links(old(tasks)@, final(tasks)@, key),
            table_versions(*final(tasks)) == table_versions(*old(tasks)),
            final(tasks)@[key].level == level,
            final(tasks)@[key].slot == slot,
            forall|k: u64| #[trigger]
                out.contains(k) && k != key ==> final(tasks)@[k] == old(tasks)@[k],
    {
        let ghost nodes_before = tasks@;
        let ghost shape = self.shape();
        let ghost lists_before = self.lists@;
        let ghost list = self.lists@[(level as int, slot as int)];
        assert(shape[level as int].count == self.levels@[level as int].slots@.len());
        assert(ends_ok(self.levels@[level as int].slots@[slot as int], list));
        assert(list_ok(nodes_before, list, level as int, slot as int));
        let ghost longer = list.push(key);
        let old_tail = self.levels[level].slots[slot].tail;
        match old_tail {
            None => {
                self.set_ends(level, slot, Slot { head: Some(key), tail: Some(key) }, Ghost(longer));
            },
            Some(tail) => {
                assert(tail == list[list.len() - 1]);
                assert(!out.contains(list[list.len() - 1]));
                let node = tasks.get_mut(tail);
                node.next = Some(key);
                let head = self.levels[level].slots[slot].head;
                self.set_ends(level, slot, Slot { head, tail: Some(key) }, Ghost(longer));
            },
        }
        let node = tasks.get_mut(key);
        node.level = level as u8;
        node.slot = slot as u32;
        node.prev = old_tail;
        node.next = None;
        proof {
            let nodes = tasks@;
            let lists = self.lists@;
            let out_after = out.remove(key);
            assert(nodes.dom() =~= nodes_before.dom());
            assert(longer.no_duplicates()) by {
                assert forall|i: int| 0 <= i < list.len() implies #[trigger] list[i] != key by {
                    assert(!out.contains(list[i]));
                }
            }
            assert(list_ok(nodes, longer, level as int, slot as int)) by {
                assert forall|i: int|
                    #![trigger longer[i]]
                    0 <= i < longer.len() implies {
                    &&& nodes.contains_key(longer[i])
                    &&& nodes[longer[i]].level == level
                    &&& nodes[longer[i]].slot == slot
                    &&& nodes[longer[i]].prev == (if i == 0 {
                        None
                    } else {
                        Some(longer[i - 1])
                    })
                    &&& nodes[longer[i]].next == (if i == longer.len() - 1 {
                        None
                    } else {
                        Some(longer[i + 1])
                    })
                } by {
                    if i < list.len() {
                        assert(longer[i] == list[i]);
                        assert(list[i] != key) by {
                            assert(!out.contains(list[i]));
                        }
                    }
                }
            }
            assert forall|l: int, s: int|
                #![trigger lists[(l, s)]]
                in_shape(shape, l, s) implies {
                &&& list_ok(nodes, lists[(l, s)], l, s)
                &&& forall|i: int|
                    0 <= i < lists[(l, s)].len() ==> !out_after.contains(
                        #[trigger] lists[(l, s)][i],
                    )
            } by {
                if (l, s) == (level as int, slot as int) {
                    assert forall|i: int| 0 <= i < longer.len() implies !out_after.contains(
                        #[trigger] longer[i],
                    ) by {
                        if i < list.len() {
                            assert(longer[i] == list[i]);
                            assert(!out.contains(list[i]));
                        }
                    }
                } else {
                    let same = lists_before[(l, s)];
                    assert(lists[(l, s)] == same);
                    assert(list_ok(nodes_before, same, l, s));
                    assert forall|i: int| 0 <= i < same.len() implies nodes[#[trigger] same[i]]
                        == nodes_before[same[i]] by {
                        assert(!out.contains(same[i]));
                        if old_tail is Some {
                            assert(nodes_before[list[list.len() - 1]].level == level);
                            assert(nodes_before[list[list.len() - 1]].slot == slot);
                        }
                    }
                }
            }
            assert forall|k: u64|
                #![trigger nodes[k]]
                nodes.contains_key(k) && !out_after.contains(k) implies {
                &&& in_shape(shape, nodes[k].level as int, nodes[k].slot as int)
                &&& lists[(nodes[k].level as int, nodes[k].slot as int)].contains(k)
            } by {
                if k == key {
                    assert(longer[list.len() as int] == key);
                } else {
                    assert(nodes_before.contains_key(k) && !out.contains(k));
                    assert(nodes[k].level == nodes_before[k].level && nodes[k].slot
                        == nodes_before[k].slot);
                    let at = (nodes_before[k].level as int, nodes_before[k].slot as int);
                    assert(lists_before[at].contains(k));
                    if at == (level as int, slot as int) {
                        let i = list.index_of(k);
                        assert(list[i] == k);
                        assert(longer[i] == k);
                    }
                }
            }
        }
    }

    /// Takes a timer out of the list of its slot.
    pub fn unlink(&mut self, tasks: &mut TaskTable, key: u64, Ghost(out): Ghost<Set<u64>>)
        requires
            old(self).well_formed(old(tasks)@, out),
            old(tasks)@.contains_key(key),
            !out.contains(key),
        ensures
            final(self).well_formed(final(tasks)@, out.insert(key)),
            final(self).shape() == old(self).shape(),
            ({
                let place = (old(tasks)@[key].level as int, old(tasks)@[key].slot as int);
                let list = old(self).lists()[place];
                let at = list.index_of(key);
                &&& in_shape(old(self).shape(), place.0, place.1)
                &&& 0 <= at < list.len() && list[at] == key
                &&& final(self).lists() == old(self).lists().insert(place, list.remove(at))
            }),
            same_but_links(old(tasks)@, final(tasks)@, key),
            table_versions(*final(tasks)) == table_versions(*old(tasks)),
    {
        let entry: TaskNode = *tasks.get(key).unwrap();
        let level: usize = entry.level as usize;
        let slot: usize = entry.slot as usize;
        let ghost nodes_before = tasks@;
        let ghost shape = self.shape();
        let ghost lists_before = self.lists@;
        assert(nodes_before[key] == entry);
        let ghost list = self.lists@[(level as int, slot as int)];
        assert(list_ok(nodes_before, list, level as int, slot as int));
        let ghost at = list.index_of(key);
        assert(0 <= at < list.len() && list[at] == key);
        let ghost shorter = list.remove(at);
        assert(shape[level as int].count == self.levels@[level as int].slots@.len());
        assert(ends_ok(self.levels@[level as int].slots@[slot as int], list));
        let ends = self.levels[level].slots[slot];
        let head = match entry.prev {
            Some(prev) => {
                assert(prev == list[at - 1]);
                let node = tasks.get_mut(prev);
                node.next = entry.next;
                ends.head
            },
            None => entry.next,
        };
        let tail = match entry.next {
            Some(next) => {
                assert(next == list[at + 1]);
                let node = tasks.get_mut(next);
                node.prev = entry.prev;
                ends.tail
            },
            None => entry.prev,
        };
        self.set_ends(level, slot, Slot { head, tail }, Ghost(shorter));
        let node = tasks.get_mut(key);
        node.prev = None;
        node.next = None;
        proof {
            assert(tasks@.dom() =~= nodes_before.dom());
            lemma_unlinked(nodes_before, tasks@, lists_before, shape, out, key, at);
        }
    }

    /// Empties a slot, whose timers are then in no list, and gives the first.
    pub fn take(&mut self, tasks: &TaskTable, level: usize, slot: usize, Ghost(out): Ghost<
        Set<u64>,
    >) -> (head: Option<u64>)
        requires
            old(self).well_formed(tasks@, out),
            in_shape(old(self).shape(), level as int, slot as int),
        ensures
            ({
                let list = old(self).lists()[(level as int, slot as int)];
                &&& final(self).well_formed(tasks@, out.union(list.to_set()))
                &&& final(self).lists() == old(self).lists().insert(
                    (level as int, slot as int),
                    Seq::empty(),
                )
                &&& head == (if list.len() == 0 {
                    None
                } else {
                    Some(list[0])
                })
                &&& list_ok(tasks@, list, level as int, slot as int)
                &&& forall|i: int| 0 <= i < list.len() ==> !out.contains(#[trigger] list[i])
            }),
            final(self).shape() == old(self).shape(),
    {
        let ghost shape = self.shape();
        let ghost lists_before = self.lists@;
        let ghost list = self.lists@[(level as int, slot as int)];
        assert(shape[level as int].count == self.levels@[level as int].slots@.len());
        assert(ends_ok(self.levels@[level as int].slots@[slot as int], list));
        let head = self.levels[level].slots[slot].head;
        self.set_ends(level, slot, Slot { head: None, tail: None }, Ghost(Seq::empty()));
        proof {
            let nodes = tasks@;
            let lists = self.lists@;
            let out_after = out.union(list.to_set());
            assert(list_ok(nodes, list, level as int, slot as int));
            assert forall|l: int, s: int|
                #![trigger lists[(l, s)]]
                in_shape(shape, l, s) implies {
                &&& list_ok(nodes, lists[(l, s)], l, s)
                &&& forall|i: int|
                    0 <= i < lists[(l, s)].len() ==> !out_after.contains(
                        #[trigger] lists[(l, s)][i],
                    )
            } by {
                if (l, s) != (level as int, slot as int) {
                    let same = lists_before[(l, s)];
                    assert(lists[(l, s)] == same);
                    assert forall|i: int| 0 <= i < same.len() implies !out_after.contains(
                        #[trigger] same[i],
                    ) by {
                        assert(!out.contains(same[i]));
                        if list.contains(same[i]) {
                            let j = list.index_of(same[i]);
                            assert(nodes[list[j]].level == level);
                            assert(nodes[list[j]].slot == slot);
                        }
                    }
                }
            }
            assert forall|k: u64|
                #![trigger nodes[k]]
                nodes.contains_key(k) && !out_after.contains(k) implies {
                &&& in_shape(shape, nodes[k].level as int, nodes[k].slot as int)
                &&& lists[(nodes[k].level as int, nodes[k].slot as int)].contains(k)
            } by {
                assert(!list.to_set().contains(k));
                assert(lists_before[(
                    nodes[k].level as int,
                    nodes[k].slot as int,
                )].contains(k));
            }
        }
        head
    }

    /// Empties every slot.
    pub fn clear(&mut self)
        requires
            old(self).consistent(),
        ensures
            final(self).consistent(),
            final(self).shape() == old(self).shape(),
            forall|level: int, slot: int|
                #![trigger final(self).lists()[(level, slot)]]
                final(self).lists()[(level, slot)] == Seq::<u64>::empty(),
    {
        let mut index: usize = 0;
        let ghost shape = self.shape();
        while index < self.levels.len()
            invariant
                index <= self.levels@.len(),
                shape == self.shape(),
                shape_ok(shape),
                forall|level: int|
                    #![trigger self.levels@[level]]
                    0 <= level < self.levels@.len() ==> {
                        &&& self.levels@[level].mask == self.levels@[level].slots@.len() - 1
                        &&& valid_slot_count(self.levels@[level].slots@.len() as usize)
                    },
                forall|level: int, slot: int|
                    #![trigger self.levels@[level].slots@[slot]]
                    0 <= level < index && 0 <= slot < self.levels@[level].slots@.len() ==> (
                    self.levels@[level].slots@[slot] == (Slot { head: None, tail: None })),
            decreases self.levels@.len() - index,
        {
            let ghost before = self.levels@;
            let fresh = Level::new(
                self.levels[index].unit_ticks,
                self.levels[index].span_ticks,
                self.levels[index].slots.len(),
                self.levels[index].mask,
            );
            self.levels.set(index, fresh);
            proof {
                assert(shape_of(self.levels@) =~= shape) by {
                    assert forall|l: int| 0 <= l < shape.len() implies shape_of(
                        self.levels@,
                    )[l] == #[trigger] shape[l] by {
                        if l != index {
                            assert(self.levels@[l] == before[l]);
                        }
                    }
                }
            }
            index = index + 1;
        }
        proof {
            self.lists@ = Map::total(|at: (int, int)| Seq::empty());
        }
    }

    /// Replaces the ends of a slot and what is known of its list.
    fn set_ends(&mut self, level: usize, slot: usize, ends: Slot, Ghost(list): Ghost<Seq<u64>>)
        requires
            old(self).consistent(),
            in_shape(old(self).shape(), level as int, slot as int),
            ends_ok(ends, list),
        ensures
            final(self).consistent(),
            final(self).shape() == old(self).shape(),
            final(self).lists() == old(self).lists().insert((level as int, slot as int), list),
    {
        let ghost before = self.levels@;
        let ghost shape = self.shape();
        assert(shape[level as int].count == self.levels@[level as int].slots@.len());
        let this = &mut self.levels[level];
        this.slots.set(slot, ends);
        proof {
            self.lists@ = self.lists@.insert((level as int, slot as int), list);
            assert(self.shape() =~= shape);
            assert forall|l: int, s: int|
                #![trigger self.levels@[l].slots@[s]]
                in_shape(shape, l, s) implies ends_ok(
                self.levels@[l].slots@[s],
                self.lists@[(l, s)],
            ) by {
                if l != level {
                    assert(self.levels@[l] == before[l]);
                }
                assert(in_shape(shape_of(before), l, s));
                assert(ends_ok(before[l].slots@[s], old(self).lists@[(l, s)]));
            }
        }
    }
}

/// The levels stay right when nodes change in deadline and heap place alone and
/// nodes that are in no list leave.
pub proof fn lemma_levels_kept(
    levels: Levels,
    before: Map<u64, TaskNode>,
    after: Map<u64, TaskNode>,
    out_before: Set<u64>,
    out_after: Set<u64>,
)
    requires
        levels.well_formed(before, out_before),
        forall|k: u64| #[trigger]
            after.contains_key(k) ==> {
                &&& before.contains_key(k)
                &&& after[k].level == before[k].level
                &&& after[k].slot == before[k].slot
                &&& after[k].prev == before[k].prev
                &&& after[k].next == before[k].next
                &&& !out_after.contains(k) ==> !out_before.contains(k)
            },
        forall|k: u64| #[trigger]
            before.contains_key(k) && !out_before.contains(k) ==> after.contains_key(k),
        out_after.subset_of(out_before),
    ensures
        levels.well_formed(after, out_after),
{
    let lists = levels.lists();
    let shape = levels.shape();
    assert forall|level: int, slot: int|
        #![trigger lists[(level, slot)]]
        in_shape(shape, level, slot) implies {
        &&& list_ok(after, lists[(level, slot)], level, slot)
        &&& forall|i: int|
            0 <= i < lists[(level, slot)].len() ==> !out_after.contains(
                #[trigger] lists[(level, slot)][i],
            )
    } by {
        let list = lists[(level, slot)];
        assert(list_ok(before, list, level, slot));
        assert forall|i: int| 0 <= i < list.len() implies after.contains_key(#[trigger] list[i])
            && !out_after.contains(list[i]) by {
            assert(before.contains_key(list[i]));
            assert(!out_before.contains(list[i]));
        }
    }
    assert forall|k: u64|
        #![trigger after[k]]
        after.contains_key(k) && !out_after.contains(k) implies {
        &&& in_shape(shape, after[k].level as int, after[k].slot as int)
        &&& lists[(after[k].level as int, after[k].slot as int)].contains(k)
    } by {
        assert(before.contains_key(k) && before[k].level == after[k].level);
    }
}

/// A new node is in no list.
pub proof fn lemma_levels_added(
    levels: Levels,
    before: Map<u64, TaskNode>,
    after: Map<u64, TaskNode>,
    key: u64,
)
    requires
        levels.well_formed(before, Set::empty()),
        !before.contains_key(key),
        after == before.insert(key, after[key]),
    ensures
        levels.well_formed(after, set![key]),
{
    let lists = levels.lists();
    let shape = levels.shape();
    let out = set![key];
    assert forall|level: int, slot: int|
        #![trigger lists[(level, slot)]]
        in_shape(shape, level, slot) implies {
        &&& list_ok(after, lists[(level, slot)], level, slot)
        &&& forall|i: int|
            0 <= i < lists[(level, slot)].len() ==> !out.contains(
                #[trigger] lists[(level, slot)][i],
            )
    } by {
        let list = lists[(level, slot)];
        assert(list_ok(before, list, level, slot));
        assert forall|i: int| 0 <= i < list.len() implies #[trigger] list[i] != key by {
            assert(before.contains_key(list[i]));
        }
    }
    assert forall|k: u64|
        #![trigger after[k]]
        after.contains_key(k) && !out.contains(k) implies {
        &&& in_shape(shape, after[k].level as int, after[k].slot as int)
        &&& lists[(after[k].level as int, after[k].slot as int)].contains(k)
    } by {
        assert(before.contains_key(k) && before[k] == after[k]);
    }
}

/// When no list holds a timer, the levels are right with every timer out.
pub proof fn lemma_levels_empty(levels: Levels, nodes: Map<u64, TaskNode>, out: Set<u64>)
    requires
        levels.consistent(),
        forall|level: int, slot: int|
            #![trigger levels.lists()[(level, slot)]]
            levels.lists()[(level, slot)] == Seq::<u64>::empty(),
        forall|k: u64| #[trigger] nodes.contains_key(k) ==> out.contains(k),
    ensures
        levels.well_formed(nodes, out),
{
}

/// What being right with no timer out means for one timer.
pub proof fn lemma_levels_hold(levels: Levels, nodes: Map<u64, TaskNode>, out: Set<u64>, key: u64)
    requires
        levels.well_formed(nodes, out),
        nodes.contains_key(key),
        !out.contains(key),
    ensures
        levels.consistent(),
        in_shape(levels.shape(), nodes[key].level as int, nodes[key].slot as int),
        levels.lists()[(nodes[key].level as int, nodes[key].slot as int)].contains(key),
{
}

/// Who is in a list is one of the timers, and not one of those that are out.
pub proof fn lemma_levels_listed(
    levels: Levels,
    nodes: Map<u64, TaskNode>,
    out: Set<u64>,
    level: int,
    slot: int,
    at: int,
)
    requires
        levels.well_formed(nodes, out),
        in_shape(levels.shape(), level, slot),
        0 <= at < levels.lists()[(level, slot)].len(),
    ensures
        nodes.contains_key(levels.lists()[(level, slot)][at]),
        !out.contains(levels.lists()[(level, slot)][at]),
{
    assert(list_ok(nodes, levels.lists()[(level, slot)], level, slot));
}

/// A timer is in the list of its slot alone.
pub proof fn lemma_levels_one_list(
    levels: Levels,
    nodes: Map<u64, TaskNode>,
    out: Set<u64>,
    level: int,
    slot: int,
    key: u64,
)
    requires
        levels.well_formed(nodes, out),
        in_shape(levels.shape(), level, slot),
        levels.lists()[(level, slot)].contains(key),
    ensures
        nodes.contains_key(key),
        nodes[key].level == level,
        nodes[key].slot == slot,
{
    let list = levels.lists()[(level, slot)];
    assert(list_ok(nodes, list, level, slot));
    assert(list[list.index_of(key)] == key);
}

/// Right levels are consistent, and their shape is sound.
pub proof fn lemma_levels_sound(levels: Levels, nodes: Map<u64, TaskNode>, out: Set<u64>)
    requires
        levels.well_formed(nodes, out),
    ensures
        levels.consistent(),
        shape_ok(levels.shape()),
{
}

/// A slot spans at least one tick.
proof fn lemma_unit_positive(slots: Seq<usize>, level: int, configs: Seq<LevelConfig>)
    requires
        0 <= level <= configs.len(),
        forall|i: int| 0 <= i < configs.len() ==> level_matches(#[trigger] configs[i], slots, i),
    ensures
        level_unit(slots, level) >= 1,
    decreases level,
{
    if level > 0 {
        lemma_unit_positive(slots, level - 1, configs);
        assert(level_matches(configs[level - 1], slots, level - 1));
        assert(level_unit(slots, level - 1) * slots[level - 1] as nat >= 1) by (nonlinear_arith)
            requires
                level_unit(slots, level - 1) >= 1,
                slots[level - 1] >= 2,
        ;
    }
}

impl Level {
    /// A level of empty slots.
    fn new(unit_ticks: u64, span_ticks: u64, slot_count: usize, mask: usize) -> (level: Level)
        ensures
            level.unit_ticks == unit_ticks,
            level.span_ticks == span_ticks,
            level.mask == mask,
            level.slots@.len() == slot_count,
            forall|slot: int|
                0 <= slot < slot_count ==> (#[trigger] level.slots@[slot]) == (Slot {
                    head: None,
                    tail: None,
                }),
    {
        let mut slots: Vec<Slot> = Vec::with_capacity(slot_count);
        let mut index: usize = 0;
        while index < slot_count
            invariant
                index <= slot_count,
                slots@.len() == index,
                forall|slot: int|
                    0 <= slot < index ==> (#[trigger] slots@[slot]) == (Slot {
                        head: None,
                        tail: None,
                    }),
            decreases slot_count - index,
        {
            slots.push(Slot { head: None, tail: None });
            index = index + 1;
        }
        Level { unit_ticks, span_ticks, mask, slots }
    }
}

} // verus!
