//! The port records: what a graph keeps for each input and each output.

use crate::id::{InputId, NodeId, OutputId};
use vstd::prelude::*;

verus! {

/// How an input port may get its value.
#[derive(Clone, Copy, PartialEq, Eq, Debug, Structural)]
pub enum InputParamKind {
    /// Only through a connection from an output.
    ConnectionOnly,
    /// Only from the constant stored in the port.
    ConstantOnly,
    /// Through a connection, or from the stored constant while unconnected.
    ConnectionOrConstant,
}

/// An input port.
#[derive(Clone, Debug)]
pub struct InputParam<DataType, ValueType> {
    pub id: InputId,
    /// The type of value this port accepts.
    pub typ: DataType,
    /// The constant used while nothing is connected.
    pub value: ValueType,
    pub kind: InputParamKind,
    /// The node this port belongs to.
    pub node: NodeId,
    /// Whether an editor shows the constant next to the port.
    pub shown_inline: bool,
}

/// An output port. It carries a type and no value.
#[derive(Clone, Debug)]
pub struct OutputParam<DataType> {
    pub id: OutputId,
    /// The node this port belongs to.
    pub node: NodeId,
    pub typ: DataType,
}

impl<DataType, ValueType> InputParam<DataType, ValueType> {
    /// The constant stored in the port.
    pub fn value(&self) -> (value: &ValueType)
        ensures
            *value == self.value,
    {
        &self.value
    }

    pub fn kind(&self) -> (kind: InputParamKind)
        ensures
            kind == self.kind,
    {
        self.kind
    }

    /// The node this port belongs to.
    pub fn node(&self) -> (node: NodeId)
        ensures
            node == self.node,
    {
        self.node
    }

    /// Replaces type and constant together. Only the graph calls this, since
    /// a connection made for the old type has to go at the same time.
    pub(crate) fn change_type(&mut self, new_data_type: DataType, new_value_type: ValueType)
        ensures
            *final(self) == (InputParam {
                typ: new_data_type,
                value: new_value_type,
                ..*old(self)
            }),
    {
        self.typ = new_data_type;
        self.value = new_value_type;
    }
}

} // verus!
