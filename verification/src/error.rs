//! What a lookup in a graph can fail with.

use crate::id::{AnyParameterId, NodeId};
use vstd::prelude::*;

verus! {

/// The ways in which a lookup by identity or by name fails.
#[derive(Debug, Clone, PartialEq, Eq)]
pub enum EguiGraphError {
    /// The node has no port of that name.
    NoParameterNamed(NodeId, String),
    /// The graph holds no port with that identity.
    InvalidParameterId(AnyParameterId),
    /// The graph holds no node with that identity.
    UnknownNode(NodeId),
}

impl EguiGraphError {
    /// This error says that `node` has no port called `name`.
    pub open spec fn names_missing(self, node: NodeId, name: Seq<char>) -> bool {
        match self {
            EguiGraphError::NoParameterNamed(on, missing) => on == node && missing@ == name,
            _ => false,
        }
    }
}

} // verus!
