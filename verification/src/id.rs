//! The identities by which nodes and ports are named.

use crate::arena::SlotId;
use vstd::prelude::*;

verus! {

/// Names a node of a graph.
#[derive(Clone, Copy, PartialEq, Eq, Hash, Debug, Structural)]
pub struct NodeId {
    pub(crate) slot: SlotId,
}

/// Names an input port of a graph.
#[derive(Clone, Copy, PartialEq, Eq, Hash, Debug, Structural)]
pub struct InputId {
    pub(crate) slot: SlotId,
}

/// Names an output port of a graph.
#[derive(Clone, Copy, PartialEq, Eq, Hash, Debug, Structural)]
pub struct OutputId {
    pub(crate) slot: SlotId,
}

impl NodeId {
    /// The arena identity behind this name.
    pub closed spec fn key(self) -> SlotId {
        self.slot
    }

    /// What `key` stands for, for the modules of this crate that store by it.
    pub(crate) proof fn lemma_key()
        ensures
            forall|id: NodeId| #[trigger] id.key() == id.slot,
    {
    }

    /// Two names with one arena identity are one name.
    pub proof fn lemma_key_determines(self, other: NodeId)
        requires
            self.key() == other.key(),
        ensures
            self == other,
    {
    }
}

impl InputId {
    /// The arena identity behind this name.
    pub closed spec fn key(self) -> SlotId {
        self.slot
    }

    /// What `key` stands for, for the modules of this crate that store by it.
    pub(crate) proof fn lemma_key()
        ensures
            forall|id: InputId| #[trigger] id.key() == id.slot,
    {
    }

    /// Two names with one arena identity are one name.
    pub proof fn lemma_key_determines(self, other: InputId)
        requires
            self.key() == other.key(),
        ensures
            self == other,
    {
    }
}

/// Names a port of either direction.
#[derive(Clone, Copy, PartialEq, Eq, Hash, Debug, Structural)]
pub enum AnyParameterId {
    Input(InputId),
    Output(OutputId),
}

} // verus!
