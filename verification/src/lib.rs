//! A graph of nodes with named, typed ports and the connections between them.
//!
//! Nodes and ports are reached through identities that stay valid under every
//! change to the graph until the thing they name is removed, and that are
//! never handed out twice. The graph keeps every reference between nodes,
//! ports and connections from dangling.

pub mod arena;
pub mod connections;
pub mod error;
pub mod graph;
pub mod id;
pub mod laws;
pub mod model;
pub mod node;
pub mod param;

pub use error::EguiGraphError;
pub use graph::Graph;
pub use id::{AnyParameterId, InputId, NodeId, OutputId};
pub use node::Node;
pub use param::{InputParam, InputParamKind, OutputParam};
