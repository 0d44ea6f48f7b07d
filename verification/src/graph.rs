//! The graph: the owner of all nodes, ports and connections, and the only
//! way to change them.

use crate::arena::{Arena, SlotId};
use crate::connections::{same_slot, ConnectionTable};
use crate::error::EguiGraphError;
use crate::id::{AnyParameterId, InputId, NodeId, OutputId};
use crate::laws::{
    lemma_add_connection_wf, lemma_add_input_param_wf, lemma_add_node_wf,
    lemma_add_output_param_wf, lemma_change_input_type_wf, lemma_change_output_type_wf,
    lemma_remove_connection_wf, lemma_remove_node_wf,
};
use crate::model::{lemma_first_named_listed, GraphModel};
use crate::node::Node;
use crate::param::{InputParam, InputParamKind, OutputParam};
use vstd::prelude::*;

verus! {

/// A graph of nodes, their input and output ports, and the connections from
/// outputs to inputs.
#[derive(Debug, Clone)]
pub struct Graph<NodeData, DataType, ValueType> {
    nodes: Arena<Node<NodeData>>,
    inputs: Arena<InputParam<DataType, ValueType>>,
    outputs: Arena<OutputParam<DataType>>,
    connections: ConnectionTable,
}

impl<NodeData, DataType, ValueType> View for Graph<NodeData, DataType, ValueType> {
    type V = GraphModel<NodeData, DataType, ValueType>;

    closed spec fn view(&self) -> GraphModel<NodeData, DataType, ValueType> {
        GraphModel {
            nodes: Map::new(
                |id: NodeId| self.nodes@.contains_key(id.slot),
                |id: NodeId| self.nodes@[id.slot]@,
            ),
            inputs: Map::new(
                |id: InputId| self.inputs@.contains_key(id.slot),
                |id: InputId| self.inputs@[id.slot],
            ),
            outputs: Map::new(
                |id: OutputId| self.outputs@.contains_key(id.slot),
                |id: OutputId| self.outputs@[id.slot],
            ),
            connections: self.connections@,
            issued_nodes: Set::new(|id: NodeId| self.nodes.issued().contains(id.slot)),
            issued_inputs: Set::new(|id: InputId| self.inputs.issued().contains(id.slot)),
            issued_outputs: Set::new(|id: OutputId| self.outputs.issued().contains(id.slot)),
        }
    }
}

impl<NodeData, DataType, ValueType> Graph<NodeData, DataType, ValueType> {
    /// The three arenas are consistent in themselves.
    pub closed spec fn storage_wf(&self) -> bool {
        &&& self.nodes.wf()
        &&& self.inputs.wf()
        &&& self.outputs.wf()
    }

    /// The invariant that every operation of the graph keeps.
    pub open spec fn wf(&self) -> bool {
        &&& self.storage_wf()
        &&& self@.wf()
    }

    /// A graph without nodes.
    pub fn new() -> (graph: Self)
        ensures
            graph.wf(),
            graph@ == GraphModel::<NodeData, DataType, ValueType>::empty(),
    {
        let graph = Graph {
            nodes: Arena::new(),
            inputs: Arena::new(),
            outputs: Arena::new(),
            connections: ConnectionTable::new(),
        };
        proof {
            let empty = GraphModel::<NodeData, DataType, ValueType>::empty();
            assert(graph@.nodes =~= empty.nodes);
            assert(graph@.inputs =~= empty.inputs);
            assert(graph@.outputs =~= empty.outputs);
            assert(graph@.issued_nodes =~= empty.issued_nodes);
            assert(graph@.issued_inputs =~= empty.issued_inputs);
            assert(graph@.issued_outputs =~= empty.issued_outputs);
        }
        graph
    }

    /// The node behind `node_id`, if it is live.
    pub fn node(&self, node_id: NodeId) -> (found: Option<&Node<NodeData>>)
        ensures
            found is Some == self@.nodes.contains_key(node_id),
            found is Some ==> found.unwrap()@ == self@.nodes[node_id],
    {
        self.nodes.get(node_id.slot)
    }

    /// The identities of all live nodes, each once, ordered by storage slot.
    pub fn iter_nodes(&self) -> (all: Vec<NodeId>)
        ensures
            forall|id: NodeId| #[trigger] all@.contains(id) <==> self@.nodes.contains_key(id),
            all@.no_duplicates(),
            forall|i: int, j: int|
                0 <= i < j < all@.len() ==> (#[trigger] all@[i]).key().slot() < (
                #[trigger] all@[j]).key().slot(),
    {
        proof {
            NodeId::lemma_key();
        }
        let slots = self.nodes.ids();
        let mut all: Vec<NodeId> = Vec::new();
        let mut i: usize = 0;
        while i < slots.len()
            invariant
                i <= slots.len(),
                all@.len() == i,
                forall|j: int| 0 <= j < i ==> (#[trigger] all@[j]).slot == slots@[j],
            decreases slots.len() - i,
        {
            all.push(NodeId { slot: slots[i] });
            i += 1;
        }
        proof {
            assert forall|id: NodeId| #[trigger] all@.contains(id) <==> self@.nodes.contains_key(
                id,
            ) by {
                if all@.contains(id) {
                    let j = choose|j: int| 0 <= j < all@.len() && all@[j] == id;
                    assert(slots@.contains(slots@[j]));
                }
                if self@.nodes.contains_key(id) {
                    assert(slots@.contains(id.slot));
                    let j = choose|j: int| 0 <= j < slots@.len() && slots@[j] == id.slot;
                    assert(all@[j] == id);
                }
            }
            assert forall|a: int, b: int| 0 <= a < all@.len() && 0 <= b < all@.len() && a != b implies all@[a]
                != all@[b] by {
                if a < b {
                    assert(slots@[a].slot() < slots@[b].slot());
                } else {
                    assert(slots@[b].slot() < slots@[a].slot());
                }
            }
        }
        all
    }

    /// All connections, each as the input and the output that feeds it,
    /// ordered by the storage slot of the input. No input stands in two of
    /// them.
    pub fn iter_connections(&self) -> (all: Vec<(InputId, OutputId)>)
        ensures
            forall|input: InputId, output: OutputId|
                #[trigger] all@.contains((input, output)) <==> self@.connections.contains_pair(
                    input,
                    output,
                ),
            forall|i: int, j: int|
                0 <= i < all@.len() && 0 <= j < all@.len() && i != j ==> (#[trigger] all@[i]).0 != (
                #[trigger] all@[j]).0,
            forall|i: int, j: int|
                0 <= i < j < all@.len() ==> (#[trigger] all@[i]).0.key().slot() < (
                #[trigger] all@[j]).0.key().slot(),
    {
        let all = self.connections.entries();
        proof {
            assert forall|i: int, j: int|
                0 <= i < all@.len() && 0 <= j < all@.len() && i != j implies (#[trigger] all@[i]).0
                != (#[trigger] all@[j]).0 by {
                if i < j {
                    assert(all@[i].0.key().slot() < all@[j].0.key().slot());
                } else {
                    assert(all@[j].0.key().slot() < all@[i].0.key().slot());
                }
            }
        }
        all
    }

    /// The output that feeds `input`, if it is connected.
    pub fn connection(&self, input: InputId) -> (source: Option<OutputId>)
        ensures
            source == (if self@.connections.contains_key(input) {
                Some(self@.connections[input])
            } else {
                None
            }),
    {
        self.connections.get(input)
    }

    /// The type of the port `param`, or `InvalidParameterId` if the graph
    /// holds no such port.
    pub fn any_param_type(&self, param: AnyParameterId) -> (typ: Result<&DataType, EguiGraphError>)
        ensures
            typ == (match param {
                AnyParameterId::Input(input) => if self@.inputs.contains_key(input) {
                    Ok(&self@.inputs[input].typ)
                } else {
                    Err(EguiGraphError::InvalidParameterId(param))
                },
                AnyParameterId::Output(output) => if self@.outputs.contains_key(output) {
                    Ok(&self@.outputs[output].typ)
                } else {
                    Err(EguiGraphError::InvalidParameterId(param))
                },
            }),
    {
        match param {
            AnyParameterId::Input(input) => match self.inputs.get(input.slot) {
                Some(port) => Ok(&port.typ),
                None => Err(EguiGraphError::InvalidParameterId(param)),
            },
            AnyParameterId::Output(output) => match self.outputs.get(output.slot) {
                Some(port) => Ok(&port.typ),
                None => Err(EguiGraphError::InvalidParameterId(param)),
            },
        }
    }

    /// The record of the live input `input`.
    pub fn get_input(&self, input: InputId) -> (port: &InputParam<DataType, ValueType>)
        requires
            self@.inputs.contains_key(input),
        ensures
            *port == self@.inputs[input],
    {
        self.inputs.get(input.slot).unwrap()
    }

    /// The record of the live output `output`.
    pub fn get_output(&self, output: OutputId) -> (port: &OutputParam<DataType>)
        requires
            self@.outputs.contains_key(output),
        ensures
            *port == self@.outputs[output],
    {
        self.outputs.get(output.slot).unwrap()
    }

    /// Adds a node without ports, lets `f` work on the graph with the new
    /// node's identity in hand, usually to give the node its ports, and
    /// returns that identity.
    ///
    /// `f` is called once, on the graph as it is right after the node was
    /// added; what the graph is afterwards is what `f` left.
    pub fn add_node<F>(&mut self, label: String, user_data: NodeData, f: F) -> (node_id: NodeId) where
        F: FnOnce(&mut Graph<NodeData, DataType, ValueType>, NodeId),

        requires
            old(self).wf(),
            forall|graph: &mut Graph<NodeData, DataType, ValueType>, id: NodeId|
                graph.wf() && !old(self)@.issued_nodes.contains(id) && graph@ == old(self)@.add_node(
                    id,
                    label@,
                    user_data,
                ) ==> call_requires(f, (graph, id)),
        ensures
            !old(self)@.issued_nodes.contains(node_id),
            exists|graph: &mut Graph<NodeData, DataType, ValueType>|
                {
                    &&& graph.wf()
                    &&& graph@ == old(self)@.add_node(node_id, label@, user_data)
                    &&& #[trigger] call_ensures(f, (graph, node_id), ())
                    &&& *final(graph) == *final(self)
                },
            (forall|graph: &mut Graph<NodeData, DataType, ValueType>, id: NodeId|
                graph.wf() && #[trigger] call_ensures(f, (graph, id), ()) ==> final(graph).wf())
                ==> final(self).wf(),
    {
        let node_id = NodeId { slot: self.nodes.reserve() };
        let node = Node { id: node_id, label, inputs: Vec::new(), outputs: Vec::new(), user_data };
        self.nodes.insert(node);
        proof {
            let want = old(self)@.add_node(node_id, label@, user_data);
            assert(node@.inputs =~= Seq::<(Seq<char>, InputId)>::empty());
            assert(node@.outputs =~= Seq::<(Seq<char>, OutputId)>::empty());
            assert(self@.nodes =~= want.nodes);
            assert(self@.issued_nodes =~= want.issued_nodes);
            lemma_add_node_wf(old(self)@, node_id, label@, user_data);
        }
        f(self, node_id);
        node_id
    }

    /// Whether the connection from `output` to `input` runs to or from a
    /// port of `node_id`.
    fn joins(&self, input: InputId, output: OutputId, node_id: NodeId) -> (touches: bool)
        ensures
            touches == ((self@.inputs.contains_key(input) && self@.inputs[input].node == node_id) || (
            self@.outputs.contains_key(output) && self@.outputs[output].node == node_id)),
    {
        let at_input = match self.inputs.get(input.slot) {
            Some(port) => port.node == node_id,
            None => false,
        };
        let at_output = match self.outputs.get(output.slot) {
            Some(port) => port.node == node_id,
            None => false,
        };
        at_input || at_output
    }

    /// Removes the live node `node_id`: first every connection to or from
    /// one of its ports, then its ports, then the node itself.
    pub fn remove_node(&mut self, node_id: NodeId)
        requires
            old(self).wf(),
            old(self)@.nodes.contains_key(node_id),
        ensures
            final(self).wf(),
            final(self)@ == old(self)@.remove_node(node_id),
    {
        let node = self.nodes.get(node_id.slot).unwrap();
        let inputs = node.input_ids();
        let outputs = node.output_ids();
        let ghost before = *self;
        let ghost was = self.connections@;
        let wired = self.connections.entries();
        let mut i: usize = 0;
        while i < wired.len()
            invariant
                i <= wired.len(),
                before.wf(),
                was == before@.connections,
                self.nodes == before.nodes,
                self.inputs == before.inputs,
                self.outputs == before.outputs,
                forall|input: InputId, output: OutputId|
                    #[trigger] wired@.contains((input, output)) <==> was.contains_pair(input, output),
                forall|input: InputId| #[trigger]
                    self.connections@.contains_key(input) ==> was.contains_key(input)
                        && self.connections@[input] == was[input],
                forall|input: InputId|
                    was.contains_key(input) && !(#[trigger] self.connections@.contains_key(input))
                        ==> before@.connection_touches(input, node_id),
                forall|j: int|
                    0 <= j < i && before@.connection_touches((#[trigger] wired@[j]).0, node_id)
                        ==> !self.connections@.contains_key(wired@[j].0),
            decreases wired.len() - i,
        {
            let input = wired[i].0;
            let output = wired[i].1;
            assert(wired@.contains((input, output)));
            if self.joins(input, output, node_id) {
                self.connections.remove(input);
            }
            i += 1;
        }
        let ghost cut = self.connections@;
        assert(cut =~= old(self)@.remove_node(node_id).connections) by {
            assert forall|input: InputId| cut.contains_key(input) implies !before@.connection_touches(
                input,
                node_id,
            ) by {
                if before@.connection_touches(input, node_id) {
                    assert(wired@.contains((input, was[input])));
                    let j = choose|j: int| 0 <= j < wired@.len() && wired@[j] == (input, was[input]);
                    assert(wired@[j].0 == input);
                }
            }
        }

        let mut i: usize = 0;
        while i < inputs.len()
            invariant
                i <= inputs.len(),
                before.wf(),
                before@.nodes.contains_key(node_id),
                inputs@ == before@.nodes[node_id].input_ids(),
                self.nodes == before.nodes,
                self.outputs == before.outputs,
                self.connections@ == cut,
                self.inputs.wf(),
                self.inputs.issued() == before.inputs.issued(),
                forall|k: SlotId| #[trigger]
                    self.inputs@.contains_key(k) ==> before.inputs@.contains_key(k) && self.inputs@[k]
                        == before.inputs@[k],
                forall|k: SlotId|
                    before.inputs@.contains_key(k) && !(#[trigger] self.inputs@.contains_key(k))
                        ==> before.inputs@[k].node == node_id,
                forall|j: int| 0 <= j < i ==> !self.inputs@.contains_key((#[trigger] inputs@[j]).slot),
            decreases inputs.len() - i,
        {
            assert(before@.nodes[node_id].input_ids().contains(inputs@[i as int]));
            self.inputs.remove(inputs[i].slot);
            i += 1;
        }
        let ghost pruned = self.inputs;
        let mut i: usize = 0;
        while i < outputs.len()
            invariant
                i <= outputs.len(),
                before.wf(),
                before@.nodes.contains_key(node_id),
                outputs@ == before@.nodes[node_id].output_ids(),
                self.nodes == before.nodes,
                self.inputs == pruned,
                self.connections@ == cut,
                self.outputs.wf(),
                self.outputs.issued() == before.outputs.issued(),
                forall|k: SlotId| #[trigger]
                    self.outputs@.contains_key(k) ==> before.outputs@.contains_key(k)
                        && self.outputs@[k] == before.outputs@[k],
                forall|k: SlotId|
                    before.outputs@.contains_key(k) && !(#[trigger] self.outputs@.contains_key(k))
                        ==> before.outputs@[k].node == node_id,
                forall|j: int|
                    0 <= j < i ==> !self.outputs@.contains_key((#[trigger] outputs@[j]).slot),
            decreases outputs.len() - i,
        {
            assert(before@.nodes[node_id].output_ids().contains(outputs@[i as int]));
            self.outputs.remove(outputs[i].slot);
            i += 1;
        }
        self.nodes.remove(node_id.slot);
        proof {
            let want = old(self)@.remove_node(node_id);
            assert(self@.nodes =~= want.nodes);
            assert(self@.inputs =~= want.inputs) by {
                assert forall|input: InputId|
                    self@.inputs.contains_key(input) implies before@.inputs[input].node
                    != node_id by {
                    if before@.inputs[input].node == node_id {
                        assert(before@.inputs.contains_key(input));
                        let j = choose|j: int| 0 <= j < inputs@.len() && inputs@[j] == input;
                        assert(!pruned@.contains_key(inputs@[j].slot));
                    }
                }
            }
            assert(self@.outputs =~= want.outputs) by {
                assert forall|output: OutputId|
                    self@.outputs.contains_key(output) implies before@.outputs[output].node
                    != node_id by {
                    if before@.outputs[output].node == node_id {
                        assert(before@.outputs.contains_key(output));
                        let j = choose|j: int| 0 <= j < outputs@.len() && outputs@[j] == output;
                        assert(!self.outputs@.contains_key(outputs@[j].slot));
                    }
                }
            }
            assert(self@.issued_nodes =~= want.issued_nodes);
            assert(self@.issued_inputs =~= want.issued_inputs);
            assert(self@.issued_outputs =~= want.issued_outputs);
            lemma_remove_node_wf(old(self)@, node_id);
        }
    }

    /// Feeds the live input `input` from the live output `output`, in place
    /// of whatever fed it before. The types of the two ports are not
    /// compared; a caller that cares does so first.
    pub fn add_connection(&mut self, output: OutputId, input: InputId)
        requires
            old(self).wf(),
            old(self)@.inputs.contains_key(input),
            old(self)@.outputs.contains_key(output),
        ensures
            final(self).wf(),
            final(self)@ == old(self)@.add_connection(output, input),
    {
        proof {
            self.inputs.lemma_live_slot_bound(input.slot);
            InputId::lemma_key();
        }
        self.connections.insert(input, output);
        proof {
            let was = old(self)@.connections;
            assert(self@.connections =~= was.insert(input, output)) by {
                assert forall|other: InputId| other != input && was.contains_key(other) implies !same_slot(
                    input,
                ).contains(other) by {
                    if other.key().slot() == input.key().slot() {
                        old(self).inputs.lemma_one_live_per_slot(other.slot, input.slot);
                    }
                }
            }
            lemma_add_connection_wf(old(self)@, output, input);
        }
    }

    /// Cuts the connection of `input`, and returns the output that fed it,
    /// if one did.
    pub fn remove_connection(&mut self, input: InputId) -> (source: Option<OutputId>)
        requires
            old(self).wf(),
        ensures
            final(self).wf(),
            source == (if old(self)@.connections.contains_key(input) {
                Some(old(self)@.connections[input])
            } else {
                None
            }),
            final(self)@ == old(self)@.remove_connection(input),
    {
        let source = self.connections.remove(input);
        proof {
            lemma_remove_connection_wf(old(self)@, input);
        }
        source
    }

    /// Gives the live node `node_id` a new input port, listed after the
    /// ports it has, and returns the identity of the port.
    ///
    /// The name need not be new on the node.
    pub fn add_input_param(
        &mut self,
        node_id: NodeId,
        name: String,
        typ: DataType,
        value: ValueType,
        kind: InputParamKind,
        shown_inline: bool,
    ) -> (input_id: InputId)
        requires
            old(self).wf(),
            old(self)@.nodes.contains_key(node_id),
        ensures
            final(self).wf(),
            !old(self)@.issued_inputs.contains(input_id),
            final(self)@ == old(self)@.add_input_param(
                name@,
                InputParam { id: input_id, typ, value, kind, node: node_id, shown_inline },
            ),
    {
        let input_id = InputId { slot: self.inputs.reserve() };
        let port = InputParam { id: input_id, typ, value, kind, node: node_id, shown_inline };
        self.inputs.insert(port);
        let ghost listed = self.nodes@[node_id.slot].inputs@;
        let owner = self.nodes.get_mut(node_id.slot).unwrap();
        owner.inputs.push((name, input_id));
        proof {
            let want = old(self)@.add_input_param(name@, port);
            let now = self.nodes@[node_id.slot];
            assert(now.inputs@ == listed.push((name, input_id)));
            assert(now@.inputs =~= old(self)@.nodes[node_id].inputs.push((name@, input_id)));
            assert(self@.nodes =~= want.nodes);
            assert(self@.inputs =~= want.inputs);
            assert(self@.issued_inputs =~= want.issued_inputs);
            assert(self@.issued_nodes =~= want.issued_nodes);
            lemma_add_input_param_wf(old(self)@, name@, port);
        }
        input_id
    }

    /// Gives the live node `node_id` a new output port, listed after the
    /// ports it has, and returns the identity of the port.
    ///
    /// The name need not be new on the node.
    pub fn add_output_param(&mut self, node_id: NodeId, name: String, typ: DataType) -> (output_id:
        OutputId)
        requires
            old(self).wf(),
            old(self)@.nodes.contains_key(node_id),
        ensures
            final(self).wf(),
            !old(self)@.issued_outputs.contains(output_id),
            final(self)@ == old(self)@.add_output_param(
                name@,
                OutputParam { id: output_id, node: node_id, typ },
            ),
    {
        let output_id = OutputId { slot: self.outputs.reserve() };
        let port = OutputParam { id: output_id, node: node_id, typ };
        self.outputs.insert(port);
        let ghost listed = self.nodes@[node_id.slot].outputs@;
        let owner = self.nodes.get_mut(node_id.slot).unwrap();
        owner.outputs.push((name, output_id));
        proof {
            let want = old(self)@.add_output_param(name@, port);
            let now = self.nodes@[node_id.slot];
            assert(now.outputs@ == listed.push((name, output_id)));
            assert(now@.outputs =~= old(self)@.nodes[node_id].outputs.push((name@, output_id)));
            assert(self@.nodes =~= want.nodes);
            assert(self@.outputs =~= want.outputs);
            assert(self@.issued_outputs =~= want.issued_outputs);
            assert(self@.issued_nodes =~= want.issued_nodes);
            lemma_add_output_param_wf(old(self)@, name@, port);
        }
        output_id
    }

    /// Gives the input called `input_name` on `node_id` a new type and a new
    /// constant, and cuts its connection: what was connected for the old type
    /// need not fit the new one.
    ///
    /// Fails with `UnknownNode` if the node is not live and with
    /// `NoParameterNamed` if it has no input of that name; the graph is then
    /// as it was.
    pub fn change_node_input_type(
        &mut self,
        node_id: NodeId,
        input_name: &str,
        new_data_type: DataType,
        new_value_type: ValueType,
    ) -> (done: Result<(), EguiGraphError>)
        requires
            old(self).wf(),
        ensures
            final(self).wf(),
            !old(self)@.nodes.contains_key(node_id) ==> final(self)@ == old(self)@ && done == Err::<
                (),
                EguiGraphError,
            >(EguiGraphError::UnknownNode(node_id)),
            old(self)@.nodes.contains_key(node_id) ==> match old(self)@.nodes[node_id].input_named(
                input_name@,
            ) {
                Some(input) => done is Ok && final(self)@ == old(self)@.change_input_type(
                    input,
                    new_data_type,
                    new_value_type,
                ),
                None => final(self)@ == old(self)@ && done is Err && done.unwrap_err().names_missing(
                    node_id,
                    input_name@,
                ),
            },
    {
        let input_id = match self.nodes.get(node_id.slot) {
            None => {
                return Err(EguiGraphError::UnknownNode(node_id));
            },
            Some(node) => match node.get_input(input_name) {
                Err(e) => {
                    return Err(e);
                },
                Ok(input_id) => input_id,
            },
        };
        proof {
            assert(old(self)@.nodes[node_id].input_ids().contains(input_id)) by {
                lemma_first_named_listed(old(self)@.nodes[node_id].inputs, input_name@);
            }
        }
        self.change_input_type(input_id, new_data_type, new_value_type);
        Ok(())
    }

    /// Gives the output called `output_name` on `node_id` a new type, and
    /// cuts every connection that it fed.
    ///
    /// Fails with `UnknownNode` if the node is not live and with
    /// `NoParameterNamed` if it has no output of that name; the graph is then
    /// as it was.
    pub fn change_node_output_type(
        &mut self,
        node_id: NodeId,
        output_name: &str,
        new_data_type: DataType,
    ) -> (done: Result<(), EguiGraphError>)
        requires
            old(self).wf(),
        ensures
            final(self).wf(),
            !old(self)@.nodes.contains_key(node_id) ==> final(self)@ == old(self)@ && done == Err::<
                (),
                EguiGraphError,
            >(EguiGraphError::UnknownNode(node_id)),
            old(self)@.nodes.contains_key(node_id) ==> match old(self)@.nodes[node_id].output_named(
                output_name@,
            ) {
                Some(output) => done is Ok && final(self)@ == old(self)@.change_output_type(
                    output,
                    new_data_type,
                ),
                None => final(self)@ == old(self)@ && done is Err && done.unwrap_err().names_missing(
                    node_id,
                    output_name@,
                ),
            },
    {
        let output_id = match self.nodes.get(node_id.slot) {
            None => {
                return Err(EguiGraphError::UnknownNode(node_id));
            },
            Some(node) => match node.get_output(output_name) {
                Err(e) => {
                    return Err(e);
                },
                Ok(output_id) => output_id,
            },
        };
        proof {
            assert(old(self)@.nodes[node_id].output_ids().contains(output_id)) by {
                lemma_first_named_listed(old(self)@.nodes[node_id].outputs, output_name@);
            }
        }
        self.change_output_type(output_id, new_data_type);
        Ok(())
    }

    /// Replaces type and constant of `input_id` and cuts its connection.
    /// Does nothing if the input is not live.
    fn change_input_type(
        &mut self,
        input_id: InputId,
        new_data_type: DataType,
        new_value_type: ValueType,
    )
        requires
            old(self).wf(),
        ensures
            final(self).wf(),
            final(self)@ == (if old(self)@.inputs.contains_key(input_id) {
                old(self)@.change_input_type(input_id, new_data_type, new_value_type)
            } else {
                old(self)@
            }),
    {
        if let Some(input) = self.inputs.get_mut(input_id.slot) {
            input.change_type(new_data_type, new_value_type);
            self.connections.remove(input_id);
            proof {
                let want = old(self)@.change_input_type(input_id, new_data_type, new_value_type);
                assert(self@.inputs =~= want.inputs);
                assert(self@.issued_inputs =~= want.issued_inputs);
                lemma_change_input_type_wf(old(self)@, input_id, new_data_type, new_value_type);
            }
        }
    }

    /// Replaces the type of `output_id` and cuts every connection that it
    /// fed. Does nothing if the output is not live.
    fn change_output_type(&mut self, output_id: OutputId, new_data_type: DataType)
        requires
            old(self).wf(),
        ensures
            final(self).wf(),
            final(self)@ == (if old(self)@.outputs.contains_key(output_id) {
                old(self)@.change_output_type(output_id, new_data_type)
            } else {
                old(self)@
            }),
    {
        if let Some(output) = self.outputs.get_mut(output_id.slot) {
            output.typ = new_data_type;
            let fed = self.connections.entries();
            let ghost was = self.connections@;
            let ghost retyped = *self;
            let mut i: usize = 0;
            while i < fed.len()
                invariant
                    i <= fed.len(),
                    self.nodes == retyped.nodes,
                    self.inputs == retyped.inputs,
                    self.outputs == retyped.outputs,
                    forall|input: InputId, output: OutputId|
                        #[trigger] fed@.contains((input, output)) <==> was.contains_pair(input, output),
                    forall|input: InputId| #[trigger]
                        self.connections@.contains_key(input) ==> was.contains_key(input)
                            && self.connections@[input] == was[input],
                    forall|input: InputId|
                        was.contains_key(input) && !(#[trigger] self.connections@.contains_key(input))
                            ==> was[input] == output_id,
                    forall|j: int|
                        0 <= j < i && (#[trigger] fed@[j]).1 == output_id
                            ==> !self.connections@.contains_key(fed@[j].0),
                decreases fed.len() - i,
            {
                if fed[i].1 == output_id {
                    assert(fed@.contains((fed@[i as int].0, fed@[i as int].1)));
                    self.connections.remove(fed[i].0);
                }
                i += 1;
            }
            proof {
                let want = old(self)@.change_output_type(output_id, new_data_type);
                assert(self@.connections =~= want.connections) by {
                    assert forall|input: InputId|
                        self@.connections.contains_key(input) implies was[input] != output_id by {
                        if was[input] == output_id {
                            assert(fed@.contains((input, output_id)));
                            let j = choose|j: int| 0 <= j < fed@.len() && fed@[j] == (input, output_id);
                            assert(fed@[j].1 == output_id);
                        }
                    }
                }
                assert(self@.outputs =~= want.outputs);
                assert(self@.issued_outputs =~= want.issued_outputs);
                lemma_change_output_type_wf(old(self)@, output_id, new_data_type);
            }
        }
    }
}

impl<NodeData, DataType, ValueType> Default for Graph<NodeData, DataType, ValueType> {
    /// A graph without nodes.
    fn default() -> (graph: Self)
        ensures
            graph.wf(),
            graph@ == GraphModel::<NodeData, DataType, ValueType>::empty(),
    {
        Self::new()
    }
}

} // verus!
