//! A node: a label, a payload, and the ports it was given, in order.

use crate::error::EguiGraphError;
use crate::graph::Graph;
use crate::id::{InputId, NodeId, OutputId};
use crate::model::{lemma_first_named_absent, lemma_first_named_at, NodeModel};
use crate::param::{InputParam, OutputParam};
use vstd::prelude::*;

verus! {

/// A node of a graph. The ports themselves live in the graph; the node lists
/// them by name and identity.
#[derive(Debug, Clone)]
pub struct Node<NodeData> {
    pub id: NodeId,
    pub label: String,
    pub inputs: Vec<(String, InputId)>,
    pub outputs: Vec<(String, OutputId)>,
    pub user_data: NodeData,
}

impl<NodeData> View for Node<NodeData> {
    type V = NodeModel<NodeData>;

    open spec fn view(&self) -> NodeModel<NodeData> {
        NodeModel {
            id: self.id,
            label: self.label@,
            inputs: self.inputs@.map_values(|port: (String, InputId)| (port.0@, port.1)),
            outputs: self.outputs@.map_values(|port: (String, OutputId)| (port.0@, port.1)),
            user_data: self.user_data,
        }
    }
}

impl<NodeData> Node<NodeData> {
    /// The identities of this node's input ports, in the order in which they
    /// were added.
    pub fn input_ids(&self) -> (ids: Vec<InputId>)
        ensures
            ids@ == self@.input_ids(),
    {
        let mut ids: Vec<InputId> = Vec::new();
        let mut i: usize = 0;
        while i < self.inputs.len()
            invariant
                i <= self.inputs.len(),
                ids@ == self@.input_ids().take(i as int),
            decreases self.inputs.len() - i,
        {
            ids.push(self.inputs[i].1);
            i += 1;
        }
        ids
    }

    /// The identities of this node's output ports, in the order in which they
    /// were added.
    pub fn output_ids(&self) -> (ids: Vec<OutputId>)
        ensures
            ids@ == self@.output_ids(),
    {
        let mut ids: Vec<OutputId> = Vec::new();
        let mut i: usize = 0;
        while i < self.outputs.len()
            invariant
                i <= self.outputs.len(),
                ids@ == self@.output_ids().take(i as int),
            decreases self.outputs.len() - i,
        {
            ids.push(self.outputs[i].1);
            i += 1;
        }
        ids
    }

    /// The records of this node's input ports, in the order in which they
    /// were added, read from the graph that holds them.
    pub fn inputs<'a, DataType, ValueType>(
        &'a self,
        graph: &'a Graph<NodeData, DataType, ValueType>,
    ) -> (ports: Vec<&'a InputParam<DataType, ValueType>>)
        requires
            forall|input: InputId| #[trigger]
                self@.input_ids().contains(input) ==> graph@.inputs.contains_key(input),
        ensures
            ports@.len() == self@.inputs.len(),
            forall|i: int|
                0 <= i < ports@.len() ==> *(#[trigger] ports@[i]) == graph@.inputs[self@.inputs[i].1],
    {
        let mut ports: Vec<&'a InputParam<DataType, ValueType>> = Vec::new();
        let mut i: usize = 0;
        while i < self.inputs.len()
            invariant
                i <= self.inputs.len(),
                ports@.len() == i,
                forall|input: InputId| #[trigger]
                    self@.input_ids().contains(input) ==> graph@.inputs.contains_key(input),
                forall|j: int|
                    0 <= j < i ==> *(#[trigger] ports@[j]) == graph@.inputs[self@.inputs[j].1],
            decreases self.inputs.len() - i,
        {
            assert(self@.input_ids()[i as int] == self.inputs@[i as int].1);
            assert(self@.input_ids().contains(self.inputs@[i as int].1));
            ports.push(graph.get_input(self.inputs[i].1));
            i += 1;
        }
        ports
    }

    /// The records of this node's output ports, in the order in which they
    /// were added, read from the graph that holds them.
    pub fn outputs<'a, DataType, ValueType>(
        &'a self,
        graph: &'a Graph<NodeData, DataType, ValueType>,
    ) -> (ports: Vec<&'a OutputParam<DataType>>)
        requires
            forall|output: OutputId| #[trigger]
                self@.output_ids().contains(output) ==> graph@.outputs.contains_key(output),
        ensures
            ports@.len() == self@.outputs.len(),
            forall|i: int|
                0 <= i < ports@.len() ==> *(#[trigger] ports@[i]) == graph@.outputs[self@.outputs[i].1],
    {
        let mut ports: Vec<&'a OutputParam<DataType>> = Vec::new();
        let mut i: usize = 0;
        while i < self.outputs.len()
            invariant
                i <= self.outputs.len(),
                ports@.len() == i,
                forall|output: OutputId| #[trigger]
                    self@.output_ids().contains(output) ==> graph@.outputs.contains_key(output),
                forall|j: int|
                    0 <= j < i ==> *(#[trigger] ports@[j]) == graph@.outputs[self@.outputs[j].1],
            decreases self.outputs.len() - i,
        {
            assert(self@.output_ids()[i as int] == self.outputs@[i as int].1);
            assert(self@.output_ids().contains(self.outputs@[i as int].1));
            ports.push(graph.get_output(self.outputs[i].1));
            i += 1;
        }
        ports
    }

    /// The first input port called `name`.
    ///
    /// Names need not be unique on a node; of several ports with one name a
    /// lookup only ever finds the one added first.
    pub fn get_input(&self, name: &str) -> (found: Result<InputId, EguiGraphError>)
        ensures
            match found {
                Ok(id) => self@.input_named(name@) == Some(id),
                Err(e) => self@.input_named(name@) is None && e.names_missing(self.id, name@),
            },
    {
        let wanted: String = name.to_owned();
        let mut i: usize = 0;
        while i < self.inputs.len()
            invariant
                i <= self.inputs.len(),
                wanted@ == name@,
                forall|j: int| 0 <= j < i ==> (#[trigger] self@.inputs[j]).0 != name@,
            decreases self.inputs.len() - i,
        {
            if self.inputs[i].0 == wanted {
                proof {
                    lemma_first_named_at(self@.inputs, name@, i as int);
                }
                return Ok(self.inputs[i].1);
            }
            i += 1;
        }
        proof {
            lemma_first_named_absent(self@.inputs, name@);
        }
        Err(EguiGraphError::NoParameterNamed(self.id, wanted))
    }

    /// The first output port called `name`.
    ///
    /// Names need not be unique on a node; of several ports with one name a
    /// lookup only ever finds the one added first.
    pub fn get_output(&self, name: &str) -> (found: Result<OutputId, EguiGraphError>)
        ensures
            match found {
                Ok(id) => self@.output_named(name@) == Some(id),
                Err(e) => self@.output_named(name@) is None && e.names_missing(self.id, name@),
            },
    {
        let wanted: String = name.to_owned();
        let mut i: usize = 0;
        while i < self.outputs.len()
            invariant
                i <= self.outputs.len(),
                wanted@ == name@,
                forall|j: int| 0 <= j < i ==> (#[trigger] self@.outputs[j]).0 != name@,
            decreases self.outputs.len() - i,
        {
            if self.outputs[i].0 == wanted {
                proof {
                    lemma_first_named_at(self@.outputs, name@, i as int);
                }
                return Ok(self.outputs[i].1);
            }
            i += 1;
        }
        proof {
            lemma_first_named_absent(self@.outputs, name@);
        }
        Err(EguiGraphError::NoParameterNamed(self.id, wanted))
    }
}

} // verus!
