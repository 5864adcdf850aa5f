//! Generational storage that keeps its values packed in one contiguous
//! buffer, addressed by keys that never come back to life once removed.

use vstd::prelude::*;

verus! {

/// Handle to a value stored in a [`DenseArena`].
///
/// A key names a slot and the version that slot had when the value was
/// inserted; once the value is removed, the slot's version moves on and the
/// key stops resolving for good.
#[derive(Clone, Copy, Debug, PartialEq, Eq, Structural, Hash)]
pub struct ArenaKey {
    index: usize,
    version: u64,
}

enum SlotState {
    /// Holds the position of the value in the packed buffer.
    Occupied(usize),
    /// Free for reuse with the slot's current version.
    Vacant,
    /// Its version can no longer advance, so it is never handed out again.
    Retired,
}

struct Slot {
    version: u64,
    state: SlotState,
}

struct Entry<V> {
    key: ArenaKey,
    value: V,
}

/// Values packed contiguously, found through a slot table.
pub struct DenseArena<V> {
    slots: Vec<Slot>,
    entries: Vec<Entry<V>>,
    free: Vec<usize>,
}

impl<V> DenseArena<V> {
    /// The key currently stored in slot `i`.
    spec fn slot_key(self, i: int) -> ArenaKey {
        ArenaKey { index: i as usize, version: self.slots@[i].version }
    }

    /// `key` resolves to a value.
    pub closed spec fn contains(self, key: ArenaKey) -> bool {
        &&& key.index < self.slots@.len()
        &&& self.slots@[key.index as int].version == key.version
        &&& self.slots@[key.index as int].state is Occupied
    }

    /// `key` was handed out once and its value has since been removed.
    pub closed spec fn retired(self, key: ArenaKey) -> bool {
        &&& key.index < self.slots@.len()
        &&& {
            ||| key.version < self.slots@[key.index as int].version
            ||| (key.version == self.slots@[key.index as int].version
                && self.slots@[key.index as int].state is Retired)
        }
    }

    /// `key` was handed out by this arena at some point.
    pub open spec fn issued(self, key: ArenaKey) -> bool {
        self.view().contains_key(key) || self.retired(key)
    }

    /// The values currently stored, by key.
    pub closed spec fn view(&self) -> Map<ArenaKey, V> {
        Map::new(
            |k: ArenaKey| self.contains(k),
            |k: ArenaKey| self.entries@[self.slots@[k.index as int].state->Occupied_0 as int].value,
        )
    }

    /// The internal invariant tying the slot table, the packed buffer and the
    /// free list together.
    pub closed spec fn wf(self) -> bool {
        &&& self.slots@.len() <= usize::MAX
        &&& forall|d: int|
            #![trigger self.entries@[d]]
            0 <= d < self.entries@.len() ==> {
                let k = self.entries@[d].key;
                &&& k.index < self.slots@.len()
                &&& self.slots@[k.index as int].version == k.version
                &&& self.slots@[k.index as int].state is Occupied
                &&& self.slots@[k.index as int].state->Occupied_0 == d
            }
        &&& forall|i: int|
            #![trigger self.slots@[i]]
            0 <= i < self.slots@.len() && self.slots@[i].state is Occupied ==> {
                let d = self.slots@[i].state->Occupied_0;
                &&& d < self.entries@.len()
                &&& self.entries@[d as int].key == self.slot_key(i)
            }
        &&& forall|j: int|
            #![trigger self.free@[j]]
            0 <= j < self.free@.len() ==> {
                &&& self.free@[j] < self.slots@.len()
                &&& self.slots@[self.free@[j] as int].state is Vacant
            }
        &&& forall|i: int|
            #![trigger self.slots@[i]]
            0 <= i < self.slots@.len() && self.slots@[i].state is Vacant ==> self.free@.contains(
                i as usize,
            )
        &&& forall|j1: int, j2: int|
            #![trigger self.free@[j1], self.free@[j2]]
            0 <= j1 < j2 < self.free@.len() ==> self.free@[j1] != self.free@[j2]
    }

    pub fn new() -> (arena: Self)
        ensures
            arena.wf(),
            arena.view() == Map::<ArenaKey, V>::empty(),
            forall|k: ArenaKey| !arena.issued(k),
    {
        let arena = DenseArena { slots: Vec::new(), entries: Vec::new(), free: Vec::new() };
        assert(arena.view() =~= Map::<ArenaKey, V>::empty());
        arena
    }

    /// The number of stored values.
    pub fn len(&self) -> (n: usize)
        requires
            self.wf(),
        ensures
            n == self.view().len(),
    {
        proof {
            self.lemma_len();
        }
        self.entries.len()
    }

    proof fn lemma_len(self)
        requires
            self.wf(),
        ensures
            self.view().dom().finite(),
            self.view().len() == self.entries@.len(),
    {
        let keys = self.entries@.map_values(|e: Entry<V>| e.key);
        assert forall|k: ArenaKey| self.view().dom().contains(k) implies keys.to_set().contains(k) by {
            let d = self.slots@[k.index as int].state->Occupied_0;
            assert(self.slots@[k.index as int].state is Occupied);
            assert(keys[d as int] == self.entries@[d as int].key);
            assert(keys.contains(k));
        }
        assert forall|k: ArenaKey| keys.to_set().contains(k) implies self.view().dom().contains(k) by {
            assert(keys.contains(k));
            let d = choose|d: int| 0 <= d < keys.len() && keys[d] == k;
            assert(self.entries@[d].key == keys[d]);
        }
        assert(self.view().dom() =~= keys.to_set());
        assert forall|a: int, b: int| 0 <= a < b < keys.len() implies keys[a] != keys[b] by {
            assert(self.entries@[a].key == keys[a]);
            assert(self.entries@[b].key == keys[b]);
            if keys[a] == keys[b] {
                let i = keys[a].index as int;
                assert(self.slots@[i].state->Occupied_0 == a);
            }
        }
        keys.unique_seq_to_set();
    }

    pub fn contains_key(&self, key: ArenaKey) -> (b: bool)
        requires
            self.wf(),
        ensures
            b == self.view().contains_key(key),
    {
        key.index < self.slots.len() && self.slots[key.index].version == key.version
            && match self.slots[key.index].state {
            SlotState::Occupied(_) => true,
            _ => false,
        }
    }

    pub fn get(&self, key: ArenaKey) -> (r: Option<&V>)
        requires
            self.wf(),
        ensures
            match r {
                Some(v) => self.view().contains_key(key) && *v == self.view()[key],
                None => !self.view().contains_key(key),
            },
    {
        if key.index < self.slots.len() && self.slots[key.index].version == key.version {
            match self.slots[key.index].state {
                SlotState::Occupied(d) => {
                    proof {
                        assert(self.slots@[key.index as int].state is Occupied);
                    }
                    Some(&self.entries[d].value)
                },
                _ => None,
            }
        } else {
            None
        }
    }

    pub fn get_mut(&mut self, key: ArenaKey) -> (r: Option<&mut V>)
        requires
            old(self).wf(),
        ensures
            final(self).wf(),
            forall|k: ArenaKey| final(self).retired(k) == old(self).retired(k),
            forall|k: ArenaKey| final(self).view().contains_key(k) == old(self).view().contains_key(k),
            match r {
                Some(v) => {
                    &&& old(self).view().contains_key(key)
                    &&& *v == old(self).view()[key]
                    &&& final(self).view() == old(self).view().insert(key, *final(v))
                },
                None => {
                    &&& !old(self).view().contains_key(key)
                    &&& *final(self) == *old(self)
                },
            },
    {
        if key.index < self.slots.len() && self.slots[key.index].version == key.version {
            match self.slots[key.index].state {
                SlotState::Occupied(d) => {
                    proof {
                        assert(self.slots@[key.index as int].state is Occupied);
                    }
                    let r = &mut self.entries[d].value;
                    Some(r)
                },
                _ => None,
            }
        } else {
            None
        }
    }

    /// Stores `value` under a key that this arena has never handed out before.
    pub fn insert(&mut self, value: V) -> (key: ArenaKey)
        requires
            old(self).wf(),
        ensures
            final(self).wf(),
            !old(self).issued(key),
            final(self).view() == old(self).view().insert(key, value),
            forall|k: ArenaKey| final(self).retired(k) == old(self).retired(k),
    {
        let d = self.entries.len();
        let ghost old_self = *self;
        match self.free.pop() {
            Some(i) => {
                proof {
                    assert(old_self.free@[old_self.free@.len() - 1] == i);
                    assert(old_self.slots@[i as int].state is Vacant);
                }
                let version = self.slots[i].version;
                self.slots.set(i, Slot { version, state: SlotState::Occupied(d) });
                let key = ArenaKey { index: i, version };
                self.entries.push(Entry { key, value });
                proof {
                    assert forall|j: int| 0 <= j < self.free@.len() implies self.free@[j] != i by {
                        assert(old_self.free@[j] == self.free@[j]);
                    }
                    assert forall|x: int|
                        0 <= x < self.slots@.len() && self.slots@[x].state is Vacant implies self.free@.contains(
                        x as usize,
                    ) by {
                        assert(self.slots@[i as int].state is Occupied);
                        assert(x != i as int);
                        assert(old_self.slots@[x] == self.slots@[x]);
                        assert(old_self.free@.contains(x as usize));
                        let j = choose|j: int|
                            0 <= j < old_self.free@.len() && old_self.free@[j] == x as usize;
                        assert(j < self.free@.len());
                        assert(self.free@[j] == x as usize);
                    }
                    assert(self.view() =~= old_self.view().insert(key, value));
                }
                key
            },
            None => {
                proof {
                    assert forall|x: int| 0 <= x < old_self.slots@.len() implies !(
                    old_self.slots@[x].state is Vacant) by {
                        if old_self.slots@[x].state is Vacant {
                            assert(old_self.free@.contains(x as usize));
                        }
                    }
                }
                let i = self.slots.len();
                self.slots.push(Slot { version: 0, state: SlotState::Occupied(d) });
                let key = ArenaKey { index: i, version: 0 };
                self.entries.push(Entry { key, value });
                proof {
                    assert(self.slots@.len() == self.slots.len());
                    assert(self.view() =~= old_self.view().insert(key, value));
                }
                key
            },
        }
    }

    /// Takes the value stored under `key` out of the arena; the key never
    /// resolves again.
    pub fn remove(&mut self, key: ArenaKey) -> (r: Option<V>)
        requires
            old(self).wf(),
        ensures
            final(self).wf(),
            match r {
                Some(v) => {
                    &&& old(self).view().contains_key(key)
                    &&& v == old(self).view()[key]
                    &&& final(self).view() == old(self).view().remove(key)
                    &&& forall|k: ArenaKey| final(self).retired(k) == (old(self).retired(k) || k == key)
                },
                None => {
                    &&& !old(self).view().contains_key(key)
                    &&& *final(self) == *old(self)
                },
            },
    {
        if !self.contains_key(key) {
            return None;
        }
        let ghost old_self = *self;
        let i = key.index;
        let d = match self.slots[i].state {
            SlotState::Occupied(d) => d,
            _ => {
                return None;
            },
        };
        proof {
            assert(old_self.slots@[i as int].state is Occupied);
        }
        let entry = self.entries.swap_remove(d);
        if d < self.entries.len() {
            let moved = self.entries[d].key;
            proof {
                let last = old_self.entries@.len() - 1;
                assert(old_self.entries@[last].key == moved);
                assert(moved.index != i);
            }
            let moved_version = self.slots[moved.index].version;
            self.slots.set(moved.index, Slot { version: moved_version, state: SlotState::Occupied(d) });
        }
        let version = self.slots[i].version;
        if version < u64::MAX {
            self.slots.set(i, Slot { version: version + 1, state: SlotState::Vacant });
            self.free.push(i);
        } else {
            self.slots.set(i, Slot { version, state: SlotState::Retired });
        }
        proof {
            let n = self.entries@.len();
            assert forall|e: int| 0 <= e < n implies {
                let k = #[trigger] self.entries@[e].key;
                &&& k.index < self.slots@.len()
                &&& self.slots@[k.index as int].version == k.version
                &&& self.slots@[k.index as int].state is Occupied
                &&& self.slots@[k.index as int].state->Occupied_0 == e
            } by {
                if e == d as int {
                    assert(self.entries@[e] == old_self.entries@[n as int]);
                } else {
                    assert(self.entries@[e] == old_self.entries@[e]);
                    assert(old_self.entries@[e].key != key);
                }
            }
            assert forall|x: int|
                0 <= x < self.slots@.len() && #[trigger] self.slots@[x].state is Occupied implies {
                let dd = self.slots@[x].state->Occupied_0;
                &&& dd < self.entries@.len()
                &&& self.entries@[dd as int].key == self.slot_key(x)
            } by {
                assert(x != i as int);
                let od = old_self.slots@[x].state->Occupied_0;
                assert(old_self.slots@[x].state is Occupied);
                if od == n {
                    assert(old_self.entries@[n as int].key == old_self.slot_key(x));
                } else {
                    assert(old_self.entries@[d as int].key == old_self.slot_key(i as int));
                    assert(old_self.entries@[od as int].key == old_self.slot_key(x));
                    assert(od != d);
                    assert(self.entries@[od as int] == old_self.entries@[od as int]);
                }
            }
            assert forall|j: int| 0 <= j < self.free@.len() implies {
                &&& #[trigger] self.free@[j] < self.slots@.len()
                &&& self.slots@[self.free@[j] as int].state is Vacant
            } by {
                if j < old_self.free@.len() {
                    assert(old_self.free@[j] == self.free@[j]);
                    assert(old_self.slots@[self.free@[j] as int].state is Vacant);
                }
            }
            assert forall|x: int|
                0 <= x < self.slots@.len() && #[trigger] self.slots@[x].state is Vacant implies self.free@.contains(
                x as usize,
            ) by {
                if x == i as int {
                    assert(self.free@[self.free@.len() - 1] == i);
                } else {
                    assert(old_self.slots@[x].state is Vacant);
                    assert(old_self.free@.contains(x as usize));
                    let j = choose|j: int|
                        0 <= j < old_self.free@.len() && old_self.free@[j] == x as usize;
                    assert(self.free@[j] == x as usize);
                }
            }
            assert forall|j1: int, j2: int|
                0 <= j1 < j2 < self.free@.len() implies #[trigger] self.free@[j1] != #[trigger] self.free@[j2] by {
                if j2 == old_self.free@.len() {
                    assert(old_self.slots@[old_self.free@[j1] as int].state is Vacant);
                } else {
                    assert(old_self.free@[j1] == self.free@[j1]);
                    assert(old_self.free@[j2] == self.free@[j2]);
                }
            }
            assert(self.wf());
            assert(self.view() =~= old_self.view().remove(key));
        }
        Some(entry.value)
    }

    /// A key that has been removed never resolves again: it is absent from
    /// every later state of the arena, since each operation keeps it retired.
    pub proof fn lemma_retired_is_absent(self, key: ArenaKey)
        requires
            self.wf(),
            self.retired(key),
        ensures
            !self.view().contains_key(key),
    {
    }
}

} // verus!
