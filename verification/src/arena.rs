//! A generational arena: a growable store whose entries are reached through
//! identities that stay valid until the entry is removed and are never handed
//! out a second time, even when the storage slot behind them is reused.

use vstd::prelude::*;

verus! {

/// The identity of one occupancy of one slot of an [`Arena`].
///
/// A slot that is vacated and later reused hands out a different generation,
/// so an identity that went stale can never resolve to the slot's next
/// occupant.
#[derive(Clone, Copy, PartialEq, Eq, Hash, Debug, Structural)]
pub struct SlotId {
    pub(crate) index: usize,
    pub(crate) generation: u64,
}

impl SlotId {
    /// The position of the storage slot this identity points at.
    pub closed spec fn slot(self) -> nat {
        self.index as nat
    }

    /// What `slot` stands for, for the modules of this crate that store by
    /// slot.
    pub(crate) proof fn lemma_parts()
        ensures
            forall|k: SlotId| #[trigger] k.slot() == k.index,
    {
    }
}

/// One storage cell. While occupied, `generation` is that of the occupant;
/// while vacant, it is the generation the next occupant will get.
#[derive(Debug, Clone)]
struct Slot<T> {
    generation: u64,
    value: Option<T>,
}

/// A store of values of type `T`, each reached through the [`SlotId`] that
/// `insert` returned for it.
#[derive(Debug, Clone)]
pub struct Arena<T> {
    slots: Vec<Slot<T>>,
    /// Vacant slots that can still be reused, most recently vacated last.
    free: Vec<usize>,
}

impl<T> View for Arena<T> {
    type V = Map<SlotId, T>;

    /// The live entries.
    closed spec fn view(&self) -> Map<SlotId, T> {
        Map::new(
            |k: SlotId| self.holds(k),
            |k: SlotId| self.slots@[k.index as int].value->Some_0,
        )
    }
}

impl<T> Arena<T> {
    /// `k` is the identity of the current occupant of its slot.
    spec fn holds(&self, k: SlotId) -> bool {
        &&& k.index < self.slots@.len()
        &&& self.slots@[k.index as int].generation == k.generation
        &&& self.slots@[k.index as int].value is Some
    }

    /// Every identity that this arena has ever handed out, live or stale.
    pub closed spec fn issued(&self) -> Set<SlotId> {
        Set::new(
            |k: SlotId|
                k.index < self.slots@.len() && (k.generation < self.slots@[k.index as int].generation
                    || self.holds(k)),
        )
    }

    /// The identity that the next `insert` will hand out.
    pub closed spec fn next_id(&self) -> SlotId {
        if self.free@.len() > 0 {
            let index = self.free@[self.free@.len() - 1];
            SlotId { index, generation: self.slots@[index as int].generation }
        } else {
            SlotId { index: self.slots@.len() as usize, generation: 0 }
        }
    }

    /// Internal consistency of slots and free list.
    pub closed spec fn wf(&self) -> bool {
        &&& forall|i: int|
            0 <= i < self.slots@.len() && (#[trigger] self.slots@[i]).value is Some
                ==> self.slots@[i].generation < u64::MAX
        &&& forall|j: int|
            0 <= j < self.free@.len() ==> {
                &&& (#[trigger] self.free@[j]) < self.slots@.len()
                &&& self.slots@[self.free@[j] as int].value is None
                &&& self.slots@[self.free@[j] as int].generation < u64::MAX
            }
        &&& self.free@.no_duplicates()
    }

    /// Live identities were handed out, and the next one was not.
    pub proof fn lemma_live_issued(&self)
        requires
            self.wf(),
        ensures
            self@.dom().subset_of(self.issued()),
            !self.issued().contains(self.next_id()),
    {
        if self.free@.len() > 0 {
            let index = self.free@[self.free@.len() - 1];
            assert(self.slots@[index as int].value is None);
        } else {
            assert(self.slots.len() == self.slots@.len());
        }
    }

    /// At most one identity per slot is live.
    pub proof fn lemma_one_live_per_slot(&self, a: SlotId, b: SlotId)
        requires
            self@.contains_key(a),
            self@.contains_key(b),
            a.slot() == b.slot(),
        ensures
            a == b,
    {
    }

    /// A live identity points at a slot that exists.
    pub proof fn lemma_live_slot_bound(&self, k: SlotId)
        requires
            self@.contains_key(k),
        ensures
            k.slot() < usize::MAX,
    {
        assert(self.slots.len() == self.slots@.len());
    }

    /// An empty arena.
    pub fn new() -> (arena: Self)
        ensures
            arena.wf(),
            arena@ == Map::<SlotId, T>::empty(),
            arena.issued() == Set::<SlotId>::empty(),
    {
        let arena = Arena { slots: Vec::new(), free: Vec::new() };
        assert(arena@ =~= Map::<SlotId, T>::empty());
        assert(arena.issued() =~= Set::<SlotId>::empty());
        arena
    }

    /// Whether `k` is live.
    pub fn contains(&self, k: SlotId) -> (live: bool)
        ensures
            live == self@.contains_key(k),
    {
        k.index < self.slots.len() && self.slots[k.index].generation == k.generation
            && self.slots[k.index].value.is_some()
    }

    /// The entry behind `k`, if `k` is live.
    pub fn get(&self, k: SlotId) -> (entry: Option<&T>)
        ensures
            entry == (if self@.contains_key(k) {
                Some(&self@[k])
            } else {
                None
            }),
    {
        if k.index < self.slots.len() && self.slots[k.index].generation == k.generation {
            self.slots[k.index].value.as_ref()
        } else {
            None
        }
    }

    /// Mutable access to the entry behind `k`, if `k` is live. Whatever the
    /// caller leaves there is the entry from then on; nothing else changes.
    pub fn get_mut(&mut self, k: SlotId) -> (entry: Option<&mut T>)
        requires
            old(self).wf(),
        ensures
            final(self).wf(),
            final(self).issued() == old(self).issued(),
            entry is Some == old(self)@.contains_key(k),
            match entry {
                Some(entry) => *entry == old(self)@[k] && final(self)@ == old(self)@.insert(
                    k,
                    *final(entry),
                ),
                None => final(self)@ == old(self)@,
            },
    {
        if k.index < self.slots.len() && self.slots[k.index].generation == k.generation {
            self.slots[k.index].value.as_mut()
        } else {
            None
        }
    }

    /// The identity that the next `insert` will return, so that a value can
    /// carry its own identity.
    pub fn reserve(&self) -> (k: SlotId)
        requires
            self.wf(),
        ensures
            k == self.next_id(),
            !self.issued().contains(k),
            !self@.contains_key(k),
    {
        if self.free.len() > 0 {
            let index: usize = self.free[self.free.len() - 1];
            SlotId { index, generation: self.slots[index].generation }
        } else {
            SlotId { index: self.slots.len(), generation: 0 }
        }
    }

    /// Stores `value` under a fresh identity and returns that identity.
    pub fn insert(&mut self, value: T) -> (k: SlotId)
        requires
            old(self).wf(),
        ensures
            final(self).wf(),
            k == old(self).next_id(),
            !old(self).issued().contains(k),
            final(self)@ == old(self)@.insert(k, value),
            final(self).issued() == old(self).issued().insert(k),
    {
        match self.free.pop() {
            Some(index) => {
                let generation: u64 = self.slots[index].generation;
                self.slots[index].value = Some(value);
                let k = SlotId { index, generation };
                proof {
                    assert(self@ =~= old(self)@.insert(k, value));
                    assert(self.issued() =~= old(self).issued().insert(k));
                }
                k
            },
            None => {
                let index: usize = self.slots.len();
                self.slots.push(Slot { generation: 0, value: Some(value) });
                let k = SlotId { index, generation: 0 };
                proof {
                    assert(self@ =~= old(self)@.insert(k, value));
                    assert(self.issued() =~= old(self).issued().insert(k));
                }
                k
            },
        }
    }

    /// Takes the entry behind `k` out, if `k` is live. The identity is stale
    /// from then on.
    ///
    /// The vacated slot is kept for reuse under the next generation. A slot
    /// whose generations are used up is retired instead, so that no identity
    /// is ever handed out twice.
    pub fn remove(&mut self, k: SlotId) -> (entry: Option<T>)
        requires
            old(self).wf(),
        ensures
            final(self).wf(),
            entry == (if old(self)@.contains_key(k) {
                Some(old(self)@[k])
            } else {
                None
            }),
            final(self)@ == old(self)@.remove(k),
            final(self).issued() == old(self).issued(),
    {
        if k.index < self.slots.len() && self.slots[k.index].generation == k.generation
            && self.slots[k.index].value.is_some() {
            let entry = self.slots[k.index].value.take();
            let next: u64 = k.generation + 1;
            self.slots[k.index].generation = next;
            if next < u64::MAX {
                self.free.push(k.index);
            }
            proof {
                assert(self@ =~= old(self)@.remove(k));
                assert(self.issued() =~= old(self).issued());
            }
            entry
        } else {
            proof {
                assert(self@ =~= old(self)@.remove(k));
            }
            None
        }
    }

    /// The live identities, ordered by storage slot.
    pub fn ids(&self) -> (all: Vec<SlotId>)
        ensures
            forall|k: SlotId| #[trigger] all@.contains(k) <==> self@.contains_key(k),
            forall|i: int, j: int|
                0 <= i < j < all@.len() ==> (#[trigger] all@[i]).slot() < (#[trigger] all@[j]).slot(),
    {
        let mut all: Vec<SlotId> = Vec::new();
        let mut at: usize = 0;
        while at < self.slots.len()
            invariant
                at <= self.slots.len(),
                forall|k: SlotId| #[trigger] all@.contains(k) <==> (self@.contains_key(k) && k.index < at),
                forall|i: int, j: int|
                    0 <= i < j < all@.len() ==> (#[trigger] all@[i]).index < (#[trigger] all@[j]).index,
            decreases self.slots.len() - at,
        {
            if self.slots[at].value.is_some() {
                let id = SlotId { index: at, generation: self.slots[at].generation };
                let ghost before = all@;
                all.push(id);
                proof {
                    assert(all@[before.len() as int] == id);
                    assert forall|k: SlotId| #[trigger] all@.contains(k) <==> (self@.contains_key(k)
                        && k.index < at + 1) by {
                        if all@.contains(k) {
                            let i = choose|i: int| 0 <= i < all@.len() && all@[i] == k;
                            if i < before.len() {
                                assert(before[i] == k);
                                assert(before.contains(k));
                            }
                        }
                        if self@.contains_key(k) && k.index < at + 1 {
                            if k.index < at {
                                assert(before.contains(k));
                                let i = choose|i: int| 0 <= i < before.len() && before[i] == k;
                                assert(all@[i] == k);
                            } else {
                                assert(k == id);
                            }
                        }
                    }
                    assert forall|i: int, j: int| 0 <= i < j < all@.len() implies (#[trigger] all@[i]).index
                        < (#[trigger] all@[j]).index by {
                        assert(all@[i] == before[i]);
                        assert(before.contains(before[i]));
                        if j < before.len() {
                            assert(all@[j] == before[j]);
                        }
                    }
                }
            }
            at += 1;
        }
        all
    }
}

} // verus!
