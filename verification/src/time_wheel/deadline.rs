//! Binary heap that gives the timer with the earliest deadline.

use vstd::prelude::*;

use crate::time_wheel::table::{table_versions, TaskNode, TaskTable};

verus! {

/// One timer in the heap.
#[derive(Debug, Clone, Copy, PartialEq, Eq, Structural)]
pub struct DeadlineNode {
    /// Key of the timer.
    pub key: u64,
    /// Tick at which it is due.
    pub deadline_tick: u64,
}

/// The order of the heap: by deadline, then by key.
pub open spec fn node_le(left: DeadlineNode, right: DeadlineNode) -> bool {
    left.deadline_tick < right.deadline_tick || (left.deadline_tick == right.deadline_tick
        && left.key <= right.key)
}

/// Place of the parent of the node at `index`.
pub open spec fn parent(index: int) -> int {
    (index - 1) / 2
}

/// No node comes before its parent.
pub open spec fn heap_ordered(nodes: Seq<DeadlineNode>) -> bool {
    forall|i: int|
        #![trigger parent(i)]
        0 < i < nodes.len() ==> node_le(nodes[parent(i)], nodes[i])
}

/// Only the node at `index` may come before its parent.
spec fn ordered_but_up(nodes: Seq<DeadlineNode>, index: int) -> bool {
    &&& forall|i: int|
        #![trigger parent(i)]
        0 < i < nodes.len() && i != index ==> node_le(nodes[parent(i)], nodes[i])
    &&& forall|i: int|
        #![trigger parent(i)]
        0 < i < nodes.len() && parent(i) == index && index > 0 ==> node_le(
            nodes[parent(index)],
            nodes[i],
        )
}

/// Only the children of the node at `index` may come before it.
spec fn ordered_but_down(nodes: Seq<DeadlineNode>, index: int) -> bool {
    &&& forall|i: int|
        #![trigger parent(i)]
        0 < i < nodes.len() && parent(i) != index ==> node_le(nodes[parent(i)], nodes[i])
    &&& forall|i: int|
        #![trigger parent(i)]
        0 < i < nodes.len() && parent(i) == index && index > 0 ==> node_le(
            nodes[parent(index)],
            nodes[i],
        )
}

/// Every node of the heap stands in the table with its place and its deadline.
pub open spec fn heap_synced(nodes: Seq<DeadlineNode>, tasks: Map<u64, TaskNode>) -> bool {
    forall|i: int|
        #![trigger nodes[i]]
        0 <= i < nodes.len() ==> {
            &&& tasks.contains_key(nodes[i].key)
            &&& tasks[nodes[i].key].heap_index == i
            &&& tasks[nodes[i].key].deadline_tick == nodes[i].deadline_tick
        }
}

/// Every timer of the table but those of `without` stands in the heap.
pub open spec fn heap_covers(
    nodes: Seq<DeadlineNode>,
    tasks: Map<u64, TaskNode>,
    without: Set<u64>,
) -> bool {
    forall|key: u64|
        #![trigger tasks[key]]
        tasks.contains_key(key) && !without.contains(key) ==> {
            &&& tasks[key].heap_index < nodes.len()
            &&& nodes[tasks[key].heap_index as int].key == key
        }
}

/// The tables differ in places of the heap alone.
pub open spec fn same_but_places(before: Map<u64, TaskNode>, after: Map<u64, TaskNode>) -> bool {
    &&& before.dom() == after.dom()
    &&& forall|key: u64|
        #![trigger after[key]]
        before.contains_key(key) ==> after[key] == (TaskNode {
            heap_index: after[key].heap_index,
            ..before[key]
        })
}

/// The root of an ordered heap comes before every node.
pub proof fn lemma_root_is_least(nodes: Seq<DeadlineNode>, index: int)
    requires
        heap_ordered(nodes),
        0 <= index < nodes.len(),
    ensures
        node_le(nodes[0], nodes[index]),
    decreases index,
{
    if index > 0 {
        lemma_root_is_least(nodes, parent(index));
        assert(node_le(nodes[parent(index)], nodes[index]));
    }
}

/// Timers ordered by deadline. Each knows its place through the table.
pub struct DeadlineHeap {
    nodes: Vec<DeadlineNode>,
}

impl View for DeadlineHeap {
    type V = Seq<DeadlineNode>;

    closed spec fn view(&self) -> Seq<DeadlineNode> {
        self.nodes@
    }
}

impl DeadlineHeap {
    /// The empty heap.
    pub fn new() -> (heap: Self)
        ensures
            heap@ == Seq::<DeadlineNode>::empty(),
    {
        DeadlineHeap { nodes: Vec::new() }
    }

    /// The root, which is the earliest timer.
    pub fn peek(&self) -> (node: Option<DeadlineNode>)
        ensures
            self@.len() == 0 ==> node is None,
            self@.len() > 0 ==> node == Some(self@[0]),
    {
        if self.nodes.len() == 0 {
            None
        } else {
            Some(self.nodes[0])
        }
    }

    /// Adds the timer `key`.
    pub fn insert(&mut self, key: u64, deadline_tick: u64, tasks: &mut TaskTable)
        requires
            heap_ordered(old(self)@),
            heap_synced(old(self)@, old(tasks)@),
            heap_covers(old(self)@, old(tasks)@, set![key]),
            old(tasks)@.contains_key(key),
            old(tasks)@[key].deadline_tick == deadline_tick,
            forall|i: int| 0 <= i < old(self)@.len() ==> (#[trigger] old(self)@[i]).key != key,
        ensures
            heap_ordered(final(self)@),
            heap_synced(final(self)@, final(tasks)@),
            heap_covers(final(self)@, final(tasks)@, Set::empty()),
            same_but_places(old(tasks)@, final(tasks)@),
            table_versions(*final(tasks)) == table_versions(*old(tasks)),
            final(self)@.len() == old(self)@.len() + 1,
    {
        let index: usize = self.nodes.len();
        self.nodes.push(DeadlineNode { key, deadline_tick });
        let node = tasks.get_mut(key);
        node.heap_index = index;
        proof {
            let nodes = self.nodes@;
            assert(tasks@.dom() =~= old(tasks)@.dom());
            assert forall|i: int|
                #![trigger parent(i)]
                0 < i < nodes.len() && i != index implies node_le(nodes[parent(i)], nodes[i]) by {
                assert(node_le(old(self)@[parent(i)], old(self)@[i]));
            }
            assert(heap_synced(nodes, tasks@)) by {
                assert forall|i: int| #![trigger nodes[i]] 0 <= i < nodes.len() implies {
                    &&& tasks@.contains_key(nodes[i].key)
                    &&& tasks@[nodes[i].key].heap_index == i
                    &&& tasks@[nodes[i].key].deadline_tick == nodes[i].deadline_tick
                } by {
                    if i < index {
                        assert(nodes[i] == old(self)@[i]);
                    }
                }
            }
        }
        self.sift_up(index, tasks, Ghost(Set::empty()));
    }

    /// Gives the timer `key`, which stands at `index`, another deadline.
    pub fn update(&mut self, key: u64, index: usize, deadline_tick: u64, tasks: &mut TaskTable)
        requires
            heap_ordered(old(self)@),
            index < old(self)@.len(),
            old(self)@[index as int].key == key,
            heap_synced(
                old(self)@.update(index as int, DeadlineNode { key, deadline_tick }),
                old(tasks)@,
            ),
            heap_covers(old(self)@, old(tasks)@, Set::empty()),
        ensures
            heap_ordered(final(self)@),
            heap_synced(final(self)@, final(tasks)@),
            heap_covers(final(self)@, final(tasks)@, Set::empty()),
            same_but_places(old(tasks)@, final(tasks)@),
            table_versions(*final(tasks)) == table_versions(*old(tasks)),
            final(self)@.len() == old(self)@.len(),
    {
        self.nodes.set(index, DeadlineNode { key, deadline_tick });
        assert(self.nodes@ =~= old(self)@.update(
            index as int,
            DeadlineNode { key, deadline_tick },
        ));
        self.restore(index, tasks, Ghost(old(self)@), Ghost(Set::empty()));
    }

    /// Takes the timer `key`, which stands at `index`, out.
    pub fn remove(&mut self, key: u64, index: usize, tasks: &mut TaskTable)
        requires
            heap_ordered(old(self)@),
            heap_synced(old(self)@, old(tasks)@),
            heap_covers(old(self)@, old(tasks)@, Set::empty()),
            index < old(self)@.len(),
            old(self)@[index as int].key == key,
        ensures
            heap_ordered(final(self)@),
            heap_synced(final(self)@, final(tasks)@),
            heap_covers(final(self)@, final(tasks)@, set![key]),
            same_but_places(old(tasks)@, final(tasks)@),
            table_versions(*final(tasks)) == table_versions(*old(tasks)),
            final(self)@.len() == old(self)@.len() - 1,
            forall|i: int| 0 <= i < final(self)@.len() ==> (#[trigger] final(self)@[i]).key != key,
    {
        let ghost before = self.nodes@;
        let ghost tasks_before = tasks@;
        let last = self.nodes.pop().unwrap();
        if index == self.nodes.len() {
            proof {
                let nodes = self.nodes@;
                assert forall|i: int|
                    #![trigger parent(i)]
                    0 < i < nodes.len() implies node_le(nodes[parent(i)], nodes[i]) by {
                    assert(node_le(before[parent(i)], before[i]));
                }
                assert forall|i: int| 0 <= i < nodes.len() implies (#[trigger] nodes[i]).key
                    != key by {
                    assert(nodes[i] == before[i]);
                    assert(tasks@[before[i].key].heap_index == i);
                    assert(tasks@[before[index as int].key].heap_index == index);
                }
                assert forall|i: int| #![trigger nodes[i]] 0 <= i < nodes.len() implies {
                    &&& tasks@.contains_key(nodes[i].key)
                    &&& tasks@[nodes[i].key].heap_index == i
                    &&& tasks@[nodes[i].key].deadline_tick == nodes[i].deadline_tick
                } by {
                    assert(nodes[i] == before[i]);
                }
                assert forall|other: u64|
                    #![trigger tasks@[other]]
                    tasks@.contains_key(other) && !set![key].contains(other) implies {
                    &&& tasks@[other].heap_index < nodes.len()
                    &&& nodes[tasks@[other].heap_index as int].key == other
                } by {
                    assert(before[tasks@[other].heap_index as int].key == other);
                }
            }
            return ;
        }
        self.nodes.set(index, last);
        let node = tasks.get_mut(last.key);
        node.heap_index = index;
        let ghost reduced = before.drop_last();
        proof {
            let nodes = self.nodes@;
            let end = before.len() - 1;
            assert(tasks@.dom() =~= tasks_before.dom());
            assert(last == before[end]);
            assert(nodes =~= reduced.update(index as int, last));
            assert forall|i: int|
                #![trigger parent(i)]
                0 < i < reduced.len() implies node_le(reduced[parent(i)], reduced[i]) by {
                assert(node_le(before[parent(i)], before[i]));
            }
            assert forall|i: int, j: int| 0 <= i < before.len() && 0 <= j < before.len()
                && #[trigger] before[i].key == #[trigger] before[j].key implies i == j by {
                assert(tasks_before[before[i].key].heap_index == i);
                assert(tasks_before[before[j].key].heap_index == j);
            }
            assert forall|i: int| #![trigger nodes[i]] 0 <= i < nodes.len() implies {
                &&& tasks@.contains_key(nodes[i].key)
                &&& tasks@[nodes[i].key].heap_index == i
                &&& tasks@[nodes[i].key].deadline_tick == nodes[i].deadline_tick
                &&& nodes[i].key != key
            } by {
                if i != index {
                    assert(nodes[i] == before[i]);
                    assert(before[i].key != before[end].key);
                    assert(before[i].key != before[index as int].key);
                } else {
                    assert(before[end].key != before[index as int].key);
                }
            }
            assert forall|other: u64|
                #![trigger tasks@[other]]
                tasks@.contains_key(other) && !set![key].contains(other) implies {
                &&& tasks@[other].heap_index < nodes.len()
                &&& nodes[tasks@[other].heap_index as int].key == other
            } by {
                assert(before[tasks_before[other].heap_index as int].key == other);
            }
        }
        let ghost without = set![key];
        self.restore(index, tasks, Ghost(reduced), Ghost(without));
    }

    /// Empties the heap.
    pub fn clear(&mut self)
        ensures
            final(self)@ == Seq::<DeadlineNode>::empty(),
    {
        self.nodes.clear();
    }

    /// Puts the heap in order after the node at `index` was replaced, when the
    /// timers of `without` are not in it.
    fn restore(
        &mut self,
        index: usize,
        tasks: &mut TaskTable,
        Ghost(before): Ghost<Seq<DeadlineNode>>,
        Ghost(without): Ghost<Set<u64>>,
    )
        requires
            index < before.len(),
            heap_ordered(before),
            old(self)@ == before.update(index as int, old(self)@[index as int]),
            heap_synced(old(self)@, old(tasks)@),
            heap_covers(old(self)@, old(tasks)@, without),
        ensures
            heap_ordered(final(self)@),
            heap_synced(final(self)@, final(tasks)@),
            heap_covers(final(self)@, final(tasks)@, without),
            same_but_places(old(tasks)@, final(tasks)@),
            table_versions(*final(tasks)) == table_versions(*old(tasks)),
            final(self)@.len() == old(self)@.len(),
            without.disjoint(keys_of(old(self)@)) ==> without.disjoint(keys_of(final(self)@)),
    {
        proof {
            let nodes = self.nodes@;
            assert forall|i: int|
                #![trigger parent(i)]
                0 < i < nodes.len() && parent(i) == index && index > 0 implies node_le(
                nodes[parent(index as int)],
                nodes[i],
            ) by {
                assert(node_le(before[parent(i)], before[i]));
                assert(node_le(before[parent(index as int)], before[index as int]));
            }
            assert forall|i: int|
                #![trigger parent(i)]
                0 < i < nodes.len() && i != index && parent(i) != index implies node_le(
                nodes[parent(i)],
                nodes[i],
            ) by {
                assert(node_le(before[parent(i)], before[i]));
            }
        }
        if index != 0 && self.less(index, (index - 1) / 2) {
            assert(parent(index as int) == (index - 1) / 2);
            self.sift_up(index, tasks, Ghost(without));
        } else {
            proof {
                if index > 0 {
                    assert(parent(index as int) == (index - 1) / 2);
                }
            }
            self.sift_down(index, tasks, Ghost(without));
        }
    }

    /// Moves the node at `index` up to where its parent comes before it.
    fn sift_up(&mut self, index: usize, tasks: &mut TaskTable, Ghost(without): Ghost<
        Set<u64>,
    >)
        requires
            index < old(self)@.len(),
            ordered_but_up(old(self)@, index as int),
            heap_synced(old(self)@, old(tasks)@),
            heap_covers(old(self)@, old(tasks)@, without),
        ensures
            heap_ordered(final(self)@),
            heap_synced(final(self)@, final(tasks)@),
            heap_covers(final(self)@, final(tasks)@, without),
            same_but_places(old(tasks)@, final(tasks)@),
            table_versions(*final(tasks)) == table_versions(*old(tasks)),
            final(self)@.len() == old(self)@.len(),
            without.disjoint(keys_of(old(self)@)) ==> without.disjoint(keys_of(final(self)@)),
    {
        let mut index: usize = index;
        while index != 0
            invariant
                index < self@.len(),
                self@.len() == old(self)@.len(),
                ordered_but_up(self@, index as int),
                heap_synced(self@, tasks@),
                heap_covers(self@, tasks@, without),
                same_but_places(old(tasks)@, tasks@),
                table_versions(*tasks) == table_versions(*old(tasks)),
                without.disjoint(keys_of(old(self)@)) ==> without.disjoint(keys_of(self@)),
            decreases index,
        {
            let above: usize = (index - 1) / 2;
            assert(above == parent(index as int));
            if !self.less(index, above) {
                assert(heap_ordered(self@));
                return ;
            }
            let ghost before = self@;
            self.swap_nodes(index, above, tasks, Ghost(without));
            proof {
                let nodes = self@;
                assert forall|i: int|
                    #![trigger parent(i)]
                    0 < i < nodes.len() && i != above implies node_le(
                    nodes[parent(i)],
                    nodes[i],
                ) by {
                    assert(node_le(before[parent(i)], before[i]) || i == index);
                    if i != index && parent(i) == index {
                        assert(node_le(before[parent(index as int)], before[i]));
                    }
                }
                assert forall|i: int|
                    #![trigger parent(i)]
                    0 < i < nodes.len() && parent(i) == above && above > 0 implies node_le(
                    nodes[parent(above as int)],
                    nodes[i],
                ) by {
                    assert(node_le(before[parent(above as int)], before[above as int]));
                    if i != index {
                        assert(node_le(before[parent(i)], before[i]));
                    }
                }
            }
            index = above;
        }
        assert(heap_ordered(self@));
    }

    /// Moves the node at `index` down to where it comes before its children.
    fn sift_down(&mut self, index: usize, tasks: &mut TaskTable, Ghost(without): Ghost<Set<u64>>)
        requires
            index < old(self)@.len(),
            ordered_but_down(old(self)@, index as int),
            heap_synced(old(self)@, old(tasks)@),
            heap_covers(old(self)@, old(tasks)@, without),
        ensures
            heap_ordered(final(self)@),
            heap_synced(final(self)@, final(tasks)@),
            heap_covers(final(self)@, final(tasks)@, without),
            same_but_places(old(tasks)@, final(tasks)@),
            table_versions(*final(tasks)) == table_versions(*old(tasks)),
            final(self)@.len() == old(self)@.len(),
            without.disjoint(keys_of(old(self)@)) ==> without.disjoint(keys_of(final(self)@)),
    {
        let mut index: usize = index;
        loop
            invariant
                index < self@.len(),
                self@.len() == old(self)@.len(),
                ordered_but_down(self@, index as int),
                heap_synced(self@, tasks@),
                heap_covers(self@, tasks@, without),
                same_but_places(old(tasks)@, tasks@),
                table_versions(*tasks) == table_versions(*old(tasks)),
                without.disjoint(keys_of(old(self)@)) ==> without.disjoint(keys_of(self@)),
            decreases self@.len() - index,
        {
            if index >= self.nodes.len() / 2 {
                proof {
                    assert forall|i: int|
                        #![trigger parent(i)]
                        0 < i < self@.len() implies parent(i) != index by {}
                }
                return ;
            }
            let left: usize = index * 2 + 1;
            let right: usize = left + 1;
            let child: usize = if right < self.nodes.len() && self.less(right, left) {
                right
            } else {
                left
            };
            assert(parent(left as int) == index);
            assert(parent(right as int) == index);
            if !self.less(child, index) {
                proof {
                    assert forall|i: int|
                        #![trigger parent(i)]
                        0 < i < self@.len() implies node_le(self@[parent(i)], self@[i]) by {
                        if parent(i) == index {
                            assert(i == left || i == right);
                        }
                    }
                }
                return ;
            }
            let ghost before = self@;
            self.swap_nodes(index, child, tasks, Ghost(without));
            proof {
                let nodes = self@;
                assert forall|i: int|
                    #![trigger parent(i)]
                    0 < i < nodes.len() && parent(i) != child implies node_le(
                    nodes[parent(i)],
                    nodes[i],
                ) by {
                    if parent(i) == index {
                        assert(i == left || i == right);
                    } else if i == index {
                        assert(node_le(before[parent(index as int)], before[child as int]));
                    } else {
                        assert(node_le(before[parent(i)], before[i]));
                    }
                }
                assert forall|i: int|
                    #![trigger parent(i)]
                    0 < i < nodes.len() && parent(i) == child && child > 0 implies node_le(
                    nodes[parent(child as int)],
                    nodes[i],
                ) by {
                    assert(node_le(before[parent(i)], before[i]));
                }
            }
            index = child;
        }
    }

    /// Exchanges two nodes and tells the table.
    fn swap_nodes(
        &mut self,
        left: usize,
        right: usize,
        tasks: &mut TaskTable,
        Ghost(without): Ghost<Set<u64>>,
    )
        requires
            left < old(self)@.len(),
            right < old(self)@.len(),
            left != right,
            heap_synced(old(self)@, old(tasks)@),
            heap_covers(old(self)@, old(tasks)@, without),
        ensures
            final(self)@ == old(self)@.update(left as int, old(self)@[right as int]).update(
                right as int,
                old(self)@[left as int],
            ),
            heap_synced(final(self)@, final(tasks)@),
            heap_covers(final(self)@, final(tasks)@, without),
            same_but_places(old(tasks)@, final(tasks)@),
            table_versions(*final(tasks)) == table_versions(*old(tasks)),
            without.disjoint(keys_of(old(self)@)) ==> without.disjoint(keys_of(final(self)@)),
    {
        let left_node = self.nodes[left];
        let right_node = self.nodes[right];
        self.nodes.set(left, right_node);
        self.nodes.set(right, left_node);
        let node = tasks.get_mut(right_node.key);
        node.heap_index = left;
        let node = tasks.get_mut(left_node.key);
        node.heap_index = right;
        proof {
            let before = old(self)@;
            let tasks_before = old(tasks)@;
            let nodes = self@;
            assert forall|i: int, j: int| 0 <= i < before.len() && 0 <= j < before.len()
                && #[trigger] before[i].key == #[trigger] before[j].key implies i == j by {
                assert(tasks_before[before[i].key].heap_index == i);
                assert(tasks_before[before[j].key].heap_index == j);
            }
            assert(left_node.key != right_node.key) by {
                assert(before[left as int].key != before[right as int].key);
            }
            assert forall|i: int| #![trigger nodes[i]] 0 <= i < nodes.len() implies {
                &&& tasks@.contains_key(nodes[i].key)
                &&& tasks@[nodes[i].key].heap_index == i
                &&& tasks@[nodes[i].key].deadline_tick == nodes[i].deadline_tick
            } by {
                if i != left && i != right {
                    assert(nodes[i] == before[i]);
                    assert(before[i].key != before[left as int].key);
                    assert(before[i].key != before[right as int].key);
                }
            }
            assert forall|other: u64|
                #![trigger tasks@[other]]
                tasks@.contains_key(other) && !without.contains(other) implies {
                &&& tasks@[other].heap_index < nodes.len()
                &&& nodes[tasks@[other].heap_index as int].key == other
            } by {
                assert(before[tasks_before[other].heap_index as int].key == other);
            }
            assert(tasks@.dom() =~= tasks_before.dom());
            if without.disjoint(keys_of(before)) {
                assert forall|k: u64| keys_of(nodes).contains(k) implies !without.contains(k) by {
                    let i = choose|i: int| 0 <= i < nodes.len() && (#[trigger] nodes[i]).key == k;
                    if i == left {
                        assert(before[right as int].key == k);
                    } else if i == right {
                        assert(before[left as int].key == k);
                    } else {
                        assert(before[i].key == k);
                    }
                    assert(keys_of(before).contains(k));
                }
                assert(without.disjoint(keys_of(nodes)));
            }
        }
    }

    /// Whether one node comes strictly before another.
    fn less(&self, left: usize, right: usize) -> (before: bool)
        requires
            left < self@.len(),
            right < self@.len(),
        ensures
            before <==> !node_le(self@[right as int], self@[left as int]),
    {
        let left = self.nodes[left];
        let right = self.nodes[right];
        left.deadline_tick < right.deadline_tick || (left.deadline_tick == right.deadline_tick
            && left.key < right.key)
    }
}

/// The keys of the timers in the heap.
pub open spec fn keys_of(nodes: Seq<DeadlineNode>) -> Set<u64> {
    Set::new(|key: u64| exists|i: int| 0 <= i < nodes.len() && (#[trigger] nodes[i]).key == key)
}

} // verus!
