//! Values under numbers, kept in the order of the numbers.

use vstd::prelude::*;

verus! {

/// A map from numbers to values, walked from the lowest number up.
#[derive(Debug)]
pub struct OrderedMap<V> {
    keys: Vec<u64>,
    values: Vec<V>,
}

impl<V> View for OrderedMap<V> {
    type V = Map<u64, V>;

    closed spec fn view(&self) -> Map<u64, V> {
        Map::new(
            |key: u64| self.keys@.contains(key),
            |key: u64| self.values@[self.keys@.index_of(key)],
        )
    }
}

impl<V> OrderedMap<V> {
    /// The numbers, in rising order.
    pub closed spec fn keys(&self) -> Seq<u64> {
        self.keys@
    }

    /// The numbers rise, and each has its value.
    pub closed spec fn well_formed(&self) -> bool {
        &&& self.keys@.len() == self.values@.len()
        &&& forall|i: int, j: int|
            0 <= i < j < self.keys@.len() ==> self.keys@[i] < self.keys@[j]
    }

    /// What the order of the numbers means.
    pub proof fn lemma_keys(&self)
        requires
            self.well_formed(),
        ensures
            self@.dom().finite(),
            self@.dom().len() == self.keys().len(),
            self.keys().len() <= usize::MAX,
            forall|i: int, j: int| 0 <= i < j < self.keys().len() ==> self.keys()[i] < self.keys()[j],
            forall|key: u64| #[trigger] self@.contains_key(key) <==> self.keys().contains(key),
            forall|i: int|
                0 <= i < self.keys().len() ==> self@.contains_key(#[trigger] self.keys()[i]),
    {
        self.keys@.unique_seq_to_set();
        assert(self@.dom() =~= self.keys@.to_set());
        assert forall|i: int| 0 <= i < self.keys().len() implies self@.contains_key(
            #[trigger] self.keys()[i],
        ) by {
            assert(self.keys@.contains(self.keys@[i]));
        }
        assert(self.keys.len() == self.keys@.len());
    }

    proof fn lemma_value(&self, index: int)
        requires
            self.well_formed(),
            0 <= index < self.keys@.len(),
        ensures
            self@.contains_key(self.keys@[index]),
            self@[self.keys@[index]] == self.values@[index],
    {
        assert(self.keys@.contains(self.keys@[index]));
        let other = self.keys@.index_of(self.keys@[index]);
        assert(self.keys@[other] == self.keys@[index]);
        assert(other == index);
    }

    /// A map without values.
    pub fn new() -> (map: Self)
        ensures
            map.well_formed(),
            map@ == Map::<u64, V>::empty(),
            map.keys() == Seq::<u64>::empty(),
    {
        let map = OrderedMap { keys: Vec::new(), values: Vec::new() };
        assert(map@ =~= Map::<u64, V>::empty());
        map
    }

    /// The number of values.
    pub fn len(&self) -> (len: usize)
        requires
            self.well_formed(),
        ensures
            len == self.keys().len(),
            len == self@.dom().len(),
    {
        proof {
            self.lemma_keys();
        }
        self.keys.len()
    }

    /// The number at a place of the order.
    pub fn key_at(&self, index: usize) -> (key: u64)
        requires
            self.well_formed(),
            index < self.keys().len(),
        ensures
            key == self.keys()[index as int],
            self@.contains_key(key),
    {
        proof {
            self.lemma_value(index as int);
        }
        self.keys[index]
    }

    /// The value at a place of the order.
    pub fn value_at(&self, index: usize) -> (value: &V)
        requires
            self.well_formed(),
            index < self.keys().len(),
        ensures
            *value == self@[self.keys()[index as int]],
            self@.contains_key(self.keys()[index as int]),
    {
        proof {
            self.lemma_value(index as int);
        }
        &self.values[index]
    }

    /// The first place whose number is not below `key`.
    fn place(&self, key: u64) -> (place: usize)
        requires
            self.well_formed(),
        ensures
            place <= self.keys@.len(),
            forall|i: int| 0 <= i < place ==> self.keys@[i] < key,
            forall|i: int| place <= i < self.keys@.len() ==> self.keys@[i] >= key,
    {
        let mut low: usize = 0;
        let mut high: usize = self.keys.len();
        while low < high
            invariant
                self.well_formed(),
                low <= high <= self.keys@.len(),
                forall|i: int| 0 <= i < low ==> self.keys@[i] < key,
                forall|i: int| high <= i < self.keys@.len() ==> self.keys@[i] >= key,
            decreases high - low,
        {
            let middle: usize = low + (high - low) / 2;
            if self.keys[middle] < key {
                low = middle + 1;
            } else {
                high = middle;
            }
        }
        low
    }

    /// Whether there is a value under `key`.
    pub fn contains_key(&self, key: u64) -> (contained: bool)
        requires
            self.well_formed(),
        ensures
            contained <==> self@.contains_key(key),
    {
        self.get(key).is_some()
    }

    /// The value under `key`.
    pub fn get(&self, key: u64) -> (value: Option<&V>)
        requires
            self.well_formed(),
        ensures
            value is Some <==> self@.contains_key(key),
            value matches Some(found) ==> *found == self@[key],
    {
        let place: usize = self.place(key);
        if place < self.keys.len() && self.keys[place] == key {
            proof {
                self.lemma_value(place as int);
            }
            Some(&self.values[place])
        } else {
            assert(!self.keys@.contains(key));
            None
        }
    }

    /// The value under `key`, to be changed.
    pub fn get_mut(&mut self, key: u64) -> (value: Option<&mut V>)
        requires
            old(self).well_formed(),
        ensures
            final(self).well_formed(),
            final(self).keys() == old(self).keys(),
            value is Some <==> old(self)@.contains_key(key),
            match value {
                Some(found) => {
                    &&& *found == old(self)@[key]
                    &&& final(self)@ == old(self)@.insert(key, *final(found))
                },
                None => final(self)@ == old(self)@,
            },
    {
        let place: usize = self.place(key);
        if place < self.keys.len() && self.keys[place] == key {
            let ghost keys = self.keys@;
            proof {
                self.lemma_value(place as int);
                assert forall|after: OrderedMap<V>|
                    after.keys@ == keys && after.values@ == self.values@.update(
                        place as int,
                        after.values@[place as int],
                    ) implies #[trigger] after@ == self@.insert(
                    key,
                    after.values@[place as int],
                ) by {
                    let inserted = self@.insert(key, after.values@[place as int]);
                    assert(keys.contains(key));
                    assert forall|k: u64| #[trigger] inserted.contains_key(k) implies after@[k]
                        == inserted[k] by {
                        let i = keys.index_of(k);
                        assert(keys[i] == k);
                        if k == key {
                            assert(i == place);
                        } else {
                            assert(i != place);
                        }
                    }
                    assert(after@ =~= inserted);
                }
            }
            Some(&mut self.values[place])
        } else {
            assert(!self.keys@.contains(key));
            None
        }
    }

    /// Puts a value under `key`, in place of the one there.
    pub fn insert(&mut self, key: u64, value: V)
        requires
            old(self).well_formed(),
        ensures
            final(self).well_formed(),
            final(self)@ == old(self)@.insert(key, value),
    {
        let place: usize = self.place(key);
        let ghost keys = self.keys@;
        let ghost values = self.values@;
        if place < self.keys.len() && self.keys[place] == key {
            self.values.set(place, value);
            proof {
                let inserted = old(self)@.insert(key, value);
                assert(keys.contains(key)) by {
                    assert(keys[place as int] == key);
                }
                assert forall|k: u64| #[trigger] inserted.contains_key(k) implies self@[k]
                    == inserted[k] by {
                    let i = keys.index_of(k);
                    assert(keys[i] == k);
                    if k == key {
                        assert(i == place);
                    } else {
                        assert(i != place);
                    }
                }
                assert(self@ =~= inserted);
            }
        } else {
            self.keys.insert(place, key);
            self.values.insert(place, value);
            proof {
                let inserted = old(self)@.insert(key, value);
                let after = self.keys@;
                assert(!keys.contains(key));
                assert forall|i: int, j: int| 0 <= i < j < after.len() implies after[i] < after[j] by {
                    let a = if i < place {
                        i
                    } else {
                        i - 1
                    };
                    let b = if j < place {
                        j
                    } else {
                        j - 1
                    };
                    if i != place {
                        assert(after[i] == keys[a]);
                    }
                    if j != place {
                        assert(after[j] == keys[b]);
                    }
                }
                assert(self.well_formed());
                assert forall|k: u64| inserted.contains_key(k) == #[trigger] self@.contains_key(k) by {
                    if keys.contains(k) {
                        let i = keys.index_of(k);
                        assert(after[if i < place {
                            i
                        } else {
                            i + 1
                        }] == k);
                    }
                    if after.contains(k) {
                        let i = after.index_of(k);
                        if i != place {
                            assert(keys[if i < place {
                                i
                            } else {
                                i - 1
                            }] == k);
                        }
                    }
                    assert(after[place as int] == key);
                }
                assert forall|k: u64| #[trigger] inserted.contains_key(k) implies self@[k]
                    == inserted[k] by {
                    if k == key {
                        self.lemma_value(place as int);
                    } else {
                        let i = keys.index_of(k);
                        assert(keys.contains(k));
                        let moved = if i < place {
                            i
                        } else {
                            i + 1
                        };
                        assert(after[moved] == k);
                        self.lemma_value(moved);
                    }
                }
                assert(self@ =~= inserted);
            }
        }
    }

    /// Takes the value under `key` out.
    pub fn remove(&mut self, key: u64) -> (value: Option<V>)
        requires
            old(self).well_formed(),
        ensures
            final(self).well_formed(),
            value is Some <==> old(self)@.contains_key(key),
            value matches Some(taken) ==> taken == old(self)@[key],
            final(self)@ == old(self)@.remove(key),
    {
        let place: usize = self.place(key);
        if place < self.keys.len() && self.keys[place] == key {
            proof {
                self.lemma_value(place as int);
            }
            let ghost keys = self.keys@;
            self.keys.remove(place);
            let value = self.values.remove(place);
            proof {
                let removed = old(self)@.remove(key);
                let after = self.keys@;
                assert forall|i: int, j: int| 0 <= i < j < after.len() implies after[i] < after[j] by {
                    assert(after[i] == keys[if i < place {
                        i
                    } else {
                        i + 1
                    }]);
                    assert(after[j] == keys[if j < place {
                        j
                    } else {
                        j + 1
                    }]);
                }
                assert(self.well_formed());
                assert forall|k: u64| removed.contains_key(k) == #[trigger] self@.contains_key(k) by {
                    if keys.contains(k) && k != key {
                        let i = keys.index_of(k);
                        assert(i != place);
                        assert(after[if i < place {
                            i
                        } else {
                            i - 1
                        }] == k);
                    }
                    if after.contains(k) {
                        let i = after.index_of(k);
                        assert(keys[if i < place {
                            i
                        } else {
                            i + 1
                        }] == k);
                    }
                }
                assert forall|k: u64| #[trigger] removed.contains_key(k) implies self@[k]
                    == removed[k] by {
                    let i = keys.index_of(k);
                    assert(keys.contains(k));
                    let moved = if i < place {
                        i
                    } else {
                        i - 1
                    };
                    assert(after[moved] == k);
                    self.lemma_value(moved);
                }
                assert(self@ =~= removed);
            }
            Some(value)
        } else {
            assert(!self.keys@.contains(key));
            assert(self@.remove(key) =~= self@);
            None
        }
    }
}

} // verus!
