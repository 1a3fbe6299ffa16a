//! The generational client registry.
//!
//! An arena of slots, each holding a generation counter and an optional
//! value. A [`ClientId`] is the pair (slot index, generation); it is valid
//! only while its generation matches the slot's current generation and the
//! slot is occupied. Reusing a freed slot bumps the generation, so a stale id
//! is provably distinguishable from a fresh id referencing the same slot:
//! once a client is removed, its id never names anything again.

use vstd::prelude::*;
use vstd::std_specs::vec::vec_index_mut;

verus! {

/// A stable identifier for one client, minted by [`ClientRegistry::insert`].
#[derive(Debug, Clone, Copy, PartialEq, Eq, Hash, Structural)]
pub struct ClientId {
    /// The slot index inside the registry.
    pub index: usize,
    /// The generation the slot had when this id was minted.
    pub generation: u64,
}

impl ClientId {
    /// Creates an id from its raw parts. An arbitrary pair that was not
    /// previously produced by [`ClientId::into_raw`] may name no client.
    pub fn from_raw(index: usize, generation: u64) -> (r: Self)
        ensures
            r == (ClientId { index, generation }),
    {
        Self { index, generation }
    }

    /// Converts an id into its raw parts.
    pub fn into_raw(self) -> (r: (usize, u64))
        ensures
            r == (self.index, self.generation),
    {
        (self.index, self.generation)
    }
}

struct Slot<T> {
    generation: u64,
    value: Option<T>,
}

/// A generational arena mapping a stable [`ClientId`] to per-client state.
///
/// Viewed as a map from valid ids to their values. `insert` never fails (the
/// registry grows); `get` and `remove` on a stale or unknown id return
/// `None` and never panic.
pub struct ClientRegistry<T> {
    slots: Vec<Slot<T>>,
}

impl<T> ClientRegistry<T> {
    /// Whether `id` currently names a value.
    pub closed spec fn valid(self, id: ClientId) -> bool {
        &&& id.index < self.slots@.len()
        &&& self.slots@[id.index as int].generation == id.generation
        &&& self.slots@[id.index as int].value is Some
    }

    /// Whether `id` named a value once and never will again: its slot has
    /// moved past it, either to a later generation or by being freed.
    /// Staleness is preserved by every operation.
    pub closed spec fn stale(self, id: ClientId) -> bool {
        id.index < self.slots@.len() && {
            let slot = self.slots@[id.index as int];
            ||| id.generation < slot.generation
            ||| (id.generation == slot.generation && slot.value is None)
        }
    }

    /// A stale id is not in the registry's map.
    pub proof fn lemma_stale_unknown(self, id: ClientId)
        requires
            self.stale(id),
        ensures
            !self@.contains_key(id),
    {
    }

    /// An empty registry: no id is known, and no id is stale.
    pub fn new() -> (r: Self)
        ensures
            forall|id: ClientId| !r@.contains_key(id),
            forall|id: ClientId| !r.stale(id),
    {
        Self { slots: Vec::new() }
    }

    /// Inserts a value and mints a fresh id for it: one that the registry
    /// has never produced before. Never fails; the registry grows as needed.
    pub fn insert(&mut self, value: T) -> (id: ClientId)
        ensures
            !old(self)@.contains_key(id),
            !old(self).stale(id),
            final(self)@ == old(self)@.insert(id, value),
            forall|i: ClientId| old(self).stale(i) ==> final(self).stale(i),
            forall|i: ClientId| final(self).stale(i) ==> old(self).stale(i),
    {
        let ghost pre = *old(self);
        let n = self.slots.len();
        let mut i: usize = 0;
        while i < n
            invariant
                *self == pre,
                pre == *old(self),
                n == self.slots@.len(),
                i <= n,
                forall|j: int| 0 <= j < i ==> !(self.slots@[j].value is None
                    && self.slots@[j].generation < u64::MAX),
            decreases n - i,
        {
            let reusable = self.slots[i].value.is_none() && self.slots[i].generation < u64::MAX;
            if reusable {
                let g = self.slots[i].generation + 1;
                let slot = vec_index_mut(&mut self.slots, i);
                *slot = Slot { generation: g, value: Some(value) };
                let id = ClientId { index: i, generation: g };
                proof {
                    assert(!pre@.contains_key(id));
                    assert(!pre.stale(id));
                    assert forall|x: ClientId| #[trigger] pre.stale(x) implies self.stale(x) by {
                        if x.index == i {
                            assert(x.generation <= pre.slots@[i as int].generation);
                        }
                    }
                    assert forall|x: ClientId| #[trigger] self.stale(x) implies pre.stale(x) by {
                        if x.index == i {
                            assert(pre.slots@[i as int].value is None);
                            assert(x.generation <= pre.slots@[i as int].generation);
                        }
                    }
                    assert(self@ =~= pre@.insert(id, value)) by {
                        assert forall|x: ClientId| #[trigger] self@.contains_key(x)
                            <==> pre@.insert(id, value).contains_key(x) by {
                            if x.index == i && x != id {
                                assert(!self.valid(x));
                            }
                        }
                    }
                }
                return id;
            }
            i = i + 1;
        }
        self.slots.push(Slot { generation: 0, value: Some(value) });
        let id = ClientId { index: n, generation: 0 };
        proof {
            assert(!pre@.contains_key(id));
            assert(!pre.stale(id));
            assert forall|x: ClientId| #[trigger] pre.stale(x) implies self.stale(x) by {
                assert(x.index < pre.slots@.len());
                assert(self.slots@[x.index as int] == pre.slots@[x.index as int]);
            }
            assert forall|x: ClientId| #[trigger] self.stale(x) implies pre.stale(x) by {
                if x.index < n {
                    assert(self.slots@[x.index as int] == pre.slots@[x.index as int]);
                }
            }
            assert(self@ =~= pre@.insert(id, value)) by {
                assert forall|x: ClientId| #[trigger] self@.contains_key(x)
                    <==> pre@.insert(id, value).contains_key(x) by {
                    if x.index < n {
                        assert(self.slots@[x.index as int] == pre.slots@[x.index as int]);
                    }
                }
            }
        }
        id
    }

    /// Looks `id` up. Returns `None` exactly when `id` is unknown or stale.
    pub fn get(&self, id: ClientId) -> (r: Option<&T>)
        ensures
            match r {
                Some(v) => self@.contains_key(id) && *v == self@[id],
                None => !self@.contains_key(id),
            },
    {
        if id.index < self.slots.len() {
            let slot = &self.slots[id.index];
            if slot.generation == id.generation {
                slot.value.as_ref()
            } else {
                None
            }
        } else {
            None
        }
    }

    /// Whether `id` currently names a value.
    pub fn contains(&self, id: ClientId) -> (r: bool)
        ensures
            r == self@.contains_key(id),
    {
        self.get(id).is_some()
    }

    /// Whether `id` is stale: it named a value once and never will again.
    pub fn is_stale(&self, id: ClientId) -> (r: bool)
        ensures
            r == self.stale(id),
    {
        if id.index < self.slots.len() {
            let slot = &self.slots[id.index];
            slot.generation > id.generation
                || (slot.generation == id.generation && slot.value.is_none())
        } else {
            false
        }
    }

    /// Replaces the value under `id`, if `id` is known. Returns whether it
    /// was.
    pub fn set(&mut self, id: ClientId, value: T) -> (r: bool)
        ensures
            r == old(self)@.contains_key(id),
            r ==> final(self)@ == old(self)@.insert(id, value),
            !r ==> *final(self) == *old(self),
            forall|i: ClientId| old(self).stale(i) == final(self).stale(i),
            forall|i: ClientId| old(self)@.contains_key(i) == final(self)@.contains_key(i),
    {
        let ghost pre = *self;
        if id.index < self.slots.len() {
            let known = self.slots[id.index].generation == id.generation
                && self.slots[id.index].value.is_some();
            if known {
                let slot = vec_index_mut(&mut self.slots, id.index);
                *slot = Slot { generation: id.generation, value: Some(value) };
                proof {
                    assert forall|x: ClientId| #[trigger] pre.stale(x) == self.stale(x) by {}
                    assert(self@ =~= pre@.insert(id, value)) by {
                        assert forall|x: ClientId| #[trigger] self@.contains_key(x)
                            <==> pre@.insert(id, value).contains_key(x) by {}
                    }
                }
                return true;
            }
        }
        false
    }

    /// Replaces the value under `id` and returns the old one, or `None`
    /// (and changes nothing) when `id` is unknown or stale.
    pub fn replace(&mut self, id: ClientId, value: T) -> (r: Option<T>)
        ensures
            old(self)@.contains_key(id) ==> {
                &&& r == Some(old(self)@[id])
                &&& final(self)@ == old(self)@.insert(id, value)
            },
            !old(self)@.contains_key(id) ==> r is None && *final(self) == *old(self),
            forall|i: ClientId| old(self).stale(i) == final(self).stale(i),
            forall|i: ClientId| old(self)@.contains_key(i) == final(self)@.contains_key(i),
    {
        let ghost pre = *self;
        if id.index < self.slots.len() {
            let known = self.slots[id.index].generation == id.generation
                && self.slots[id.index].value.is_some();
            if known {
                let slot = vec_index_mut(&mut self.slots, id.index);
                let prev = slot.value.take();
                slot.value = Some(value);
                proof {
                    assert forall|x: ClientId| #[trigger] pre.stale(x) == self.stale(x) by {}
                    assert(self@ =~= pre@.insert(id, value)) by {
                        assert forall|x: ClientId| #[trigger] self@.contains_key(x)
                            <==> pre@.insert(id, value).contains_key(x) by {}
                    }
                }
                return prev;
            }
        }
        None
    }

    /// Removes `id` and returns its value, or `None` (and changes nothing)
    /// when `id` is unknown or stale. A removed id is stale from then on.
    pub fn remove(&mut self, id: ClientId) -> (r: Option<T>)
        ensures
            old(self)@.contains_key(id) ==> {
                &&& r == Some(old(self)@[id])
                &&& final(self)@ == old(self)@.remove(id)
                &&& final(self).stale(id)
            },
            !old(self)@.contains_key(id) ==> r is None && *final(self) == *old(self),
            forall|i: ClientId| old(self).stale(i) ==> final(self).stale(i),
            forall|i: ClientId| final(self).stale(i) ==> old(self).stale(i) || i == id,
    {
        let ghost pre = *self;
        if id.index < self.slots.len() {
            let known = self.slots[id.index].generation == id.generation
                && self.slots[id.index].value.is_some();
            if known {
                let slot = vec_index_mut(&mut self.slots, id.index);
                let value = slot.value.take();
                proof {
                    assert(pre@.contains_key(id));
                    assert(self.stale(id));
                    assert forall|x: ClientId| #[trigger] pre.stale(x) implies self.stale(x) by {}
                    assert forall|x: ClientId| #[trigger] self.stale(x) && x != id
                        implies pre.stale(x) by {}
                    assert(self@ =~= pre@.remove(id)) by {
                        assert forall|x: ClientId| #[trigger] self@.contains_key(x)
                            <==> pre@.remove(id).contains_key(x) by {
                            if x.index == id.index && x != id {
                                assert(!self.valid(x));
                            }
                        }
                    }
                }
                return value;
            }
        }
        None
    }

    /// The ids of every client currently in the registry, each exactly once,
    /// in slot order.
    pub fn ids(&self) -> (r: Vec<ClientId>)
        ensures
            forall|j: int| 0 <= j < r@.len() ==> self@.contains_key(#[trigger] r@[j]),
            forall|id: ClientId| self@.contains_key(id) ==> r@.contains(id),
            forall|j: int, k: int| 0 <= j < k < r@.len() ==> r@[j] != r@[k],
    {
        let mut r: Vec<ClientId> = Vec::new();
        let n = self.slots.len();
        let mut i: usize = 0;
        while i < n
            invariant
                n == self.slots@.len(),
                i <= n,
                forall|j: int| 0 <= j < r@.len() ==> self@.contains_key(#[trigger] r@[j]),
                forall|j: int| 0 <= j < r@.len() ==> (#[trigger] r@[j]).index < i,
                forall|id: ClientId| self@.contains_key(id) && id.index < i ==> r@.contains(id),
                forall|j: int, k: int| 0 <= j < k < r@.len() ==> r@[j] != r@[k],
            decreases n - i,
        {
            let slot = &self.slots[i];
            if slot.value.is_some() {
                let id = ClientId { index: i, generation: slot.generation };
                let ghost prev = r@;
                r.push(id);
                proof {
                    assert forall|x: ClientId| self@.contains_key(x) && x.index < i + 1
                        implies r@.contains(x) by {
                        if x.index < i {
                            assert(prev.contains(x));
                            let j = choose|j: int| 0 <= j < prev.len() && prev[j] == x;
                            assert(r@[j] == x);
                        } else {
                            assert(x == id);
                            assert(r@[r@.len() - 1] == x);
                        }
                    }
                }
            } else {
                proof {
                    assert forall|x: ClientId| self@.contains_key(x) && x.index < i + 1
                        implies r@.contains(x) by {
                        if x.index == i {
                            assert(!self.valid(x));
                        }
                    }
                }
            }
            i = i + 1;
        }
        r
    }
}

impl<T> View for ClientRegistry<T> {
    type V = Map<ClientId, T>;

    /// The registry viewed as the map from each valid id to its value.
    closed spec fn view(&self) -> Map<ClientId, T> {
        Map::new(
            |id: ClientId| self.valid(id),
            |id: ClientId| self.slots@[id.index as int].value.unwrap(),
        )
    }
}

} // verus!
