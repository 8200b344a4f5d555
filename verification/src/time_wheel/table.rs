//! Storage of the nodes of a wheel, which gives every timer its key.

use slotmap::{DefaultKey, Key, KeyData, SlotMap};
use vstd::prelude::*;

verus! {

/// What the wheel keeps of one timer besides its item.
#[derive(Debug, Clone, Copy, PartialEq, Eq, Structural)]
pub struct TaskNode {
    /// Tick at which the timer is due.
    pub deadline_tick: u64,
    /// Level that holds the timer.
    pub level: u8,
    /// Slot of that level.
    pub slot: u32,
    /// Timer before this one in the slot.
    pub prev: Option<u64>,
    /// Timer after this one in the slot.
    pub next: Option<u64>,
    /// Place of the timer in the deadline heap.
    pub heap_index: usize,
}

/// Number of the storage slot that a key names: its lower 32 bits.
pub open spec fn key_index(raw: u64) -> u64 {
    raw % 0x1_0000_0000
}

/// Version of a key: its upper 32 bits. A slot that is used again gives keys of a
/// higher version.
pub open spec fn key_version(raw: u64) -> u64 {
    raw / 0x1_0000_0000
}

/// The version that follows. After the highest one it starts again.
pub open spec fn next_version(version: u32) -> u32 {
    if version == u32::MAX {
        0
    } else {
        (version + 1) as u32
    }
}

/// Whether a number is a key that a slot map can give: its upper 32 bits, the
/// version, are odd.
pub open spec fn key_valid(raw: u64) -> bool {
    (raw / 0x1_0000_0000) % 2 == 1
}

/// Largest number of nodes that a slot map holds.
pub const MAX_NODES: u64 = 0xffff_fffe;

/// Nodes under generational keys. A key is written as the 64-bit number that
/// the slot map gives for it.
#[verifier::external_body]
pub struct TaskTable {
    slots: SlotMap<DefaultKey, TaskNode>,
}

/// The nodes that a table holds, under their keys.
pub uninterp spec fn table_nodes(table: TaskTable) -> Map<u64, TaskNode>;

/// The versions of the slots of a table: odd where a slot holds a node.
pub uninterp spec fn table_versions(table: TaskTable) -> Seq<u32>;

impl View for TaskTable {
    type V = Map<u64, TaskNode>;

    open spec fn view(&self) -> Map<u64, TaskNode> {
        table_nodes(*self)
    }
}

impl TaskTable {
    /// `SlotMap::new`: the map is empty, and has one slot, which is never used.
    #[verifier::external_body]
    pub(crate) fn new() -> (table: TaskTable)
        ensures
            (table_nodes(table) == Map::<u64, TaskNode>::empty()),
            table_versions(table) == seq![0u32],
    {
        TaskTable { slots: SlotMap::new() }
    }

    /// `SlotMap::insert`, which panics on a full map: the node is added under a
    /// key that is not in the map and whose index no key of the map has. The slot
    /// is a vacant one, whose version goes up by one, or a new one with version 1.
    #[verifier::external_body]
    pub(crate) fn insert(&mut self, node: TaskNode) -> (raw: u64)
        requires
            table_nodes(*old(self)).dom().len() < MAX_NODES,
        ensures
            key_valid(raw),
            !table_nodes(*old(self)).contains_key(raw),
            table_nodes(*final(self)) == table_nodes(*old(self)).insert(raw, node),
            forall|other: u64| #[trigger]
                table_nodes(*old(self)).contains_key(other) ==> key_index(other) != key_index(raw),
            ({
                let versions = table_versions(*old(self));
                let index = key_index(raw) as int;
                if index < versions.len() {
                    &&& versions[index] % 2 == 0
                    &&& key_version(raw) == versions[index] + 1
                    &&& table_versions(*final(self)) == versions.update(
                        index,
                        (versions[index] + 1) as u32,
                    )
                } else {
                    &&& index == versions.len()
                    &&& key_version(raw) == 1
                    &&& table_versions(*final(self)) == versions.push(1)
                }
            }),
    {
        self.slots.insert(node).data().as_ffi()
    }

    /// `SlotMap::get`: the node under the key. A number that is no key would be
    /// read as another key, hence the condition.
    #[verifier::external_body]
    pub(crate) fn get(&self, raw: u64) -> (node: Option<&TaskNode>)
        requires
            key_valid(raw) || table_nodes(*self).contains_key(raw),
        ensures
            node is Some <==> table_nodes(*self).contains_key(raw),
            node matches Some(found) ==> *found == table_nodes(*self)[raw],
    {
        self.slots.get(DefaultKey::from(KeyData::from_ffi(raw)))
    }

    /// `SlotMap::get_mut`, for a key of the map: what is written through the
    /// reference becomes the node under that key, and nothing else changes.
    #[verifier::external_body]
    pub(crate) fn get_mut(&mut self, raw: u64) -> (node: &mut TaskNode)
        requires
            table_nodes(*old(self)).contains_key(raw),
        ensures
            *node == table_nodes(*old(self))[raw],
            table_nodes(*final(self)) == table_nodes(*old(self)).insert(raw, *final(node)),
            table_versions(*final(self)) == table_versions(*old(self)),
    {
        self.slots.get_mut(DefaultKey::from(KeyData::from_ffi(raw))).unwrap()
    }

    /// `SlotMap::remove`, for a key of the map: the node leaves the map, and the
    /// version of its slot goes up by one.
    #[verifier::external_body]
    pub(crate) fn remove(&mut self, raw: u64) -> (node: Option<TaskNode>)
        requires
            table_nodes(*old(self)).contains_key(raw),
        ensures
            node == Some(table_nodes(*old(self))[raw]),
            table_nodes(*final(self)) == table_nodes(*old(self)).remove(raw),
            table_versions(*final(self)) == table_versions(*old(self)).update(
                key_index(raw) as int,
                next_version(table_versions(*old(self))[key_index(raw) as int]),
            ),
    {
        self.slots.remove(DefaultKey::from(KeyData::from_ffi(raw)))
    }

    /// `SlotMap::len`: the number of nodes.
    #[verifier::external_body]
    pub(crate) fn len(&self) -> (count: usize)
        ensures
            count == table_nodes(*self).dom().len(),
    {
        self.slots.len()
    }

    /// `SlotMap::keys`: each key of the map once, in the order of their indices.
    #[verifier::external_body]
    pub(crate) fn keys(&self) -> (keys: Vec<u64>)
        ensures
            forall|raw: u64| #[trigger]
                keys@.contains(raw) <==> table_nodes(*self).contains_key(raw),
            forall|i: int, j: int|
                0 <= i < j < keys@.len() ==> key_index(#[trigger] keys@[i]) < key_index(
                    #[trigger] keys@[j],
                ),
    {
        self.slots.keys().map(|key| key.data().as_ffi()).collect()
    }

    /// `SlotMap::drain`: the map is emptied; each key that it held comes out
    /// once, in the order of their indices, and the version of its slot goes up by
    /// one.
    #[verifier::external_body]
    pub(crate) fn drain(&mut self) -> (keys: Vec<u64>)
        ensures
            (table_nodes(*final(self)) == Map::<u64, TaskNode>::empty()),
            forall|raw: u64| #[trigger]
                keys@.contains(raw) <==> table_nodes(*old(self)).contains_key(raw),
            forall|i: int, j: int|
                0 <= i < j < keys@.len() ==> key_index(#[trigger] keys@[i]) < key_index(
                    #[trigger] keys@[j],
                ),
            table_versions(*final(self)).len() == table_versions(*old(self)).len(),
            forall|i: int|
                0 <= i < table_versions(*old(self)).len() ==> #[trigger] table_versions(
                    *final(self),
                )[i] == (if table_versions(*old(self))[i] % 2 == 1 {
                    next_version(table_versions(*old(self))[i])
                } else {
                    table_versions(*old(self))[i]
                }),
    {
        self.slots.drain().map(|(key, _)| key.data().as_ffi()).collect()
    }
}

} // verus!
