//! The connection table: for each input port, the output it is fed from.

use crate::arena::SlotId;
use crate::id::{InputId, OutputId};
use vstd::prelude::*;

verus! {

/// A map from input ports to the output each one is connected to.
///
/// The table keeps one cell per storage slot of the inputs, so a lookup is a
/// single indexing step. A cell remembers which occupancy of the slot its
/// connection belongs to: an identity that went stale finds nothing, and two
/// identities of one slot never both hold a connection.
#[derive(Debug, Clone)]
pub struct ConnectionTable {
    cells: Vec<Option<(u64, OutputId)>>,
}

impl View for ConnectionTable {
    type V = Map<InputId, OutputId>;

    closed spec fn view(&self) -> Map<InputId, OutputId> {
        Map::new(
            |input: InputId| self.holds(input),
            |input: InputId| self.cells@[input.slot.index as int]->Some_0.1,
        )
    }
}

/// The inputs that share a storage slot with `input`, itself among them.
pub open spec fn same_slot(input: InputId) -> Set<InputId> {
    Set::new(|other: InputId| other.key().slot() == input.key().slot())
}

impl ConnectionTable {
    /// The cell of `input` holds a connection made for `input` itself.
    spec fn holds(&self, input: InputId) -> bool {
        &&& input.slot.index < self.cells@.len()
        &&& self.cells@[input.slot.index as int] is Some
        &&& self.cells@[input.slot.index as int]->Some_0.0 == input.slot.generation
    }

    /// A table without connections.
    pub fn new() -> (table: Self)
        ensures
            table@ == Map::<InputId, OutputId>::empty(),
    {
        let table = ConnectionTable { cells: Vec::new() };
        assert(table@ =~= Map::<InputId, OutputId>::empty());
        table
    }

    /// The output that `input` is connected to, if any.
    pub fn get(&self, input: InputId) -> (source: Option<OutputId>)
        ensures
            source == (if self@.contains_key(input) {
                Some(self@[input])
            } else {
                None
            }),
    {
        if input.slot.index < self.cells.len() {
            match self.cells[input.slot.index] {
                Some((generation, output)) => {
                    if generation == input.slot.generation {
                        Some(output)
                    } else {
                        None
                    }
                },
                None => None,
            }
        } else {
            None
        }
    }

    /// Connects `input` to `output`. A connection that the cell held before,
    /// for `input` or for a stale identity of its slot, is replaced.
    pub fn insert(&mut self, input: InputId, output: OutputId)
        requires
            input.key().slot() < usize::MAX,
        ensures
            final(self)@ == old(self)@.remove_keys(same_slot(input)).insert(input, output),
    {
        proof {
            SlotId::lemma_parts();
            InputId::lemma_key();
        }
        while self.cells.len() <= input.slot.index
            invariant
                input.slot.index < usize::MAX,
                self@ == old(self)@,
            decreases input.slot.index + 1 - self.cells.len(),
        {
            self.cells.push(None);
            assert(self@ =~= old(self)@);
        }
        self.cells[input.slot.index] = Some((input.slot.generation, output));
        assert(self@ =~= old(self)@.remove_keys(same_slot(input)).insert(input, output));
    }

    /// Drops the connection of `input`, and returns the output it had.
    pub fn remove(&mut self, input: InputId) -> (source: Option<OutputId>)
        ensures
            source == (if old(self)@.contains_key(input) {
                Some(old(self)@[input])
            } else {
                None
            }),
            final(self)@ == old(self)@.remove(input),
    {
        let source = self.get(input);
        if source.is_some() {
            self.cells[input.slot.index] = None;
        }
        assert(self@ =~= old(self)@.remove(input));
        source
    }

    /// All connections, ordered by the storage slot of the input.
    pub fn entries(&self) -> (all: Vec<(InputId, OutputId)>)
        ensures
            forall|input: InputId, output: OutputId|
                #[trigger] all@.contains((input, output)) <==> self@.contains_pair(input, output),
            forall|i: int, j: int|
                0 <= i < j < all@.len() ==> (#[trigger] all@[i]).0.key().slot() < (
                #[trigger] all@[j]).0.key().slot(),
    {
        proof {
            SlotId::lemma_parts();
            InputId::lemma_key();
        }
        let mut all: Vec<(InputId, OutputId)> = Vec::new();
        let mut at: usize = 0;
        while at < self.cells.len()
            invariant
                at <= self.cells.len(),
                forall|k: SlotId| #[trigger] k.slot() == k.index,
                forall|id: InputId| #[trigger] id.key() == id.slot,
                forall|input: InputId, output: OutputId|
                    #[trigger] all@.contains((input, output)) <==> (self@.contains_pair(
                        input,
                        output,
                    ) && input.key().slot() < at),
                forall|i: int, j: int|
                    0 <= i < j < all@.len() ==> (#[trigger] all@[i]).0.key().slot() < (
                    #[trigger] all@[j]).0.key().slot(),
            decreases self.cells.len() - at,
        {
            match self.cells[at] {
                Some((generation, output)) => {
                    let input = InputId {
                        slot: SlotId { index: at, generation },
                    };
                    let ghost before = all@;
                    all.push((input, output));
                    proof {
                        assert(all@[before.len() as int] == (input, output));
                        assert(self@.contains_pair(input, output));
                        assert forall|k: InputId, o: OutputId| #[trigger]
                            all@.contains((k, o)) <==> (self@.contains_pair(k, o) && k.key().slot()
                                < at + 1) by {
                            if all@.contains((k, o)) {
                                let i = choose|i: int| 0 <= i < all@.len() && all@[i] == (k, o);
                                if i < before.len() {
                                    assert(before[i] == (k, o));
                                    assert(before.contains((k, o)));
                                }
                            }
                            if self@.contains_pair(k, o) && k.key().slot() < at + 1 {
                                if k.key().slot() < at {
                                    assert(before.contains((k, o)));
                                    let i = choose|i: int|
                                        0 <= i < before.len() && before[i] == (k, o);
                                    assert(all@[i] == (k, o));
                                } else {
                                    assert(k == input);
                                    assert(all@[before.len() as int] == (k, o));
                                }
                            }
                        }
                        assert forall|i: int, j: int| 0 <= i < j < all@.len() implies (
                        #[trigger] all@[i]).0.key().slot() < (#[trigger] all@[j]).0.key().slot() by {
                            if j == before.len() {
                                assert(all@[i] == before[i]);
                                assert(before.contains((before[i].0, before[i].1)));
                            } else {
                                assert(all@[i] == before[i]);
                                assert(all@[j] == before[j]);
                            }
                        }
                    }
                },
                None => {
                    proof {
                        assert forall|k: InputId, o: OutputId| #[trigger]
                            all@.contains((k, o)) <==> (self@.contains_pair(k, o) && k.key().slot()
                                < at + 1) by {
                        }
                    }
                },
            }
            at += 1;
        }
        all
    }
}

} // verus!
