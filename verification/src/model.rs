//! The mathematical model of a graph: what a graph is, apart from how it is
//! stored, and what each operation makes of it.

use crate::id::{InputId, NodeId, OutputId};
use crate::param::{InputParam, OutputParam};
use vstd::prelude::*;

verus! {

/// The identity listed first under `name` in an ordered list of named ports.
pub open spec fn first_named<Id>(ports: Seq<(Seq<char>, Id)>, name: Seq<char>) -> Option<Id>
    decreases ports.len(),
{
    if ports.len() == 0 {
        None
    } else if ports[0].0 == name {
        Some(ports[0].1)
    } else {
        first_named(ports.drop_first(), name)
    }
}

/// A name that `first_named` finds stands somewhere in the list, and nowhere
/// before that place.
pub proof fn lemma_first_named_is_first<Id>(ports: Seq<(Seq<char>, Id)>, name: Seq<char>)
    ensures
        match first_named(ports, name) {
            Some(id) => exists|i: int|
                0 <= i < ports.len() && #[trigger] ports[i] == (name, id) && forall|j: int|
                    0 <= j < i ==> (#[trigger] ports[j]).0 != name,
            None => forall|i: int| 0 <= i < ports.len() ==> (#[trigger] ports[i]).0 != name,
        },
    decreases ports.len(),
{
    if ports.len() > 0 && ports[0].0 != name {
        let rest = ports.drop_first();
        lemma_first_named_is_first(rest, name);
        match first_named(rest, name) {
            Some(id) => {
                let i = choose|i: int|
                    0 <= i < rest.len() && #[trigger] rest[i] == (name, id) && forall|j: int|
                        0 <= j < i ==> (#[trigger] rest[j]).0 != name;
                assert(ports[i + 1] == rest[i]);
                assert forall|j: int| 0 <= j < i + 1 implies (#[trigger] ports[j]).0 != name by {
                    if j > 0 {
                        assert(ports[j] == rest[j - 1]);
                    }
                }
            },
            None => {
                assert forall|i: int| 0 <= i < ports.len() implies (#[trigger] ports[i]).0
                    != name by {
                    if i > 0 {
                        assert(ports[i] == rest[i - 1]);
                    }
                }
            },
        }
    } else if ports.len() > 0 {
        assert(ports[0] == (name, ports[0].1));
    }
}

/// The port at `i` is the one found when no earlier port has the name.
pub proof fn lemma_first_named_at<Id>(ports: Seq<(Seq<char>, Id)>, name: Seq<char>, i: int)
    requires
        0 <= i < ports.len(),
        ports[i].0 == name,
        forall|j: int| 0 <= j < i ==> (#[trigger] ports[j]).0 != name,
    ensures
        first_named(ports, name) == Some(ports[i].1),
    decreases ports.len(),
{
    if i > 0 {
        let rest = ports.drop_first();
        assert(ports[0].0 != name);
        assert(rest[i - 1] == ports[i]);
        assert forall|j: int| 0 <= j < i - 1 implies (#[trigger] rest[j]).0 != name by {
            assert(rest[j] == ports[j + 1]);
        }
        lemma_first_named_at(rest, name, i - 1);
    }
}

/// Nothing is found where no port has the name.
pub proof fn lemma_first_named_absent<Id>(ports: Seq<(Seq<char>, Id)>, name: Seq<char>)
    requires
        forall|j: int| 0 <= j < ports.len() ==> (#[trigger] ports[j]).0 != name,
    ensures
        first_named(ports, name) is None,
{
    lemma_first_named_is_first(ports, name);
}

/// What a lookup finds is one of the listed identities.
pub proof fn lemma_first_named_listed<Id>(ports: Seq<(Seq<char>, Id)>, name: Seq<char>)
    ensures
        first_named(ports, name) matches Some(id) ==> ports.map_values(
            |port: (Seq<char>, Id)| port.1,
        ).contains(id),
{
    lemma_first_named_is_first(ports, name);
    if let Some(id) = first_named(ports, name) {
        let i = choose|i: int| 0 <= i < ports.len() && #[trigger] ports[i] == (name, id);
        assert(ports.map_values(|port: (Seq<char>, Id)| port.1)[i] == id);
    }
}

/// A port appended to the list is found under its name exactly when the name
/// was not there before; every other lookup gives what it gave.
pub proof fn lemma_first_named_push<Id>(
    ports: Seq<(Seq<char>, Id)>,
    added: (Seq<char>, Id),
    name: Seq<char>,
)
    ensures
        first_named(ports.push(added), name) == (match first_named(ports, name) {
            Some(id) => Some(id),
            None => if added.0 == name {
                Some(added.1)
            } else {
                None
            },
        }),
{
    let longer = ports.push(added);
    lemma_first_named_is_first(ports, name);
    match first_named(ports, name) {
        Some(id) => {
            let i = choose|i: int|
                0 <= i < ports.len() && #[trigger] ports[i] == (name, id) && forall|j: int|
                    0 <= j < i ==> (#[trigger] ports[j]).0 != name;
            assert(longer[i] == ports[i]);
            assert forall|j: int| 0 <= j < i implies (#[trigger] longer[j]).0 != name by {
                assert(longer[j] == ports[j]);
            }
            lemma_first_named_at(longer, name, i);
        },
        None => {
            if added.0 == name {
                assert forall|j: int| 0 <= j < ports.len() implies (#[trigger] longer[j]).0
                    != name by {
                    assert(longer[j] == ports[j]);
                }
                lemma_first_named_at(longer, name, ports.len() as int);
            } else {
                assert forall|j: int| 0 <= j < longer.len() implies (#[trigger] longer[j]).0
                    != name by {
                    if j < ports.len() {
                        assert(longer[j] == ports[j]);
                    }
                }
                lemma_first_named_absent(longer, name);
            }
        },
    }
}

/// What a node is: its identity, its payload, and its ports in the order in
/// which they were added.
pub struct NodeModel<NodeData> {
    pub id: NodeId,
    pub label: Seq<char>,
    pub inputs: Seq<(Seq<char>, InputId)>,
    pub outputs: Seq<(Seq<char>, OutputId)>,
    pub user_data: NodeData,
}

impl<NodeData> NodeModel<NodeData> {
    /// The identities of the input ports, in order.
    pub open spec fn input_ids(self) -> Seq<InputId> {
        self.inputs.map_values(|port: (Seq<char>, InputId)| port.1)
    }

    /// The identities of the output ports, in order.
    pub open spec fn output_ids(self) -> Seq<OutputId> {
        self.outputs.map_values(|port: (Seq<char>, OutputId)| port.1)
    }

    /// The input that a lookup by `name` gives: the first of that name.
    pub open spec fn input_named(self, name: Seq<char>) -> Option<InputId> {
        first_named(self.inputs, name)
    }

    /// The output that a lookup by `name` gives: the first of that name.
    pub open spec fn output_named(self, name: Seq<char>) -> Option<OutputId> {
        first_named(self.outputs, name)
    }
}

/// What a graph is: its live nodes and ports, the connections, and every
/// identity it has ever handed out.
pub struct GraphModel<NodeData, DataType, ValueType> {
    pub nodes: Map<NodeId, NodeModel<NodeData>>,
    pub inputs: Map<InputId, InputParam<DataType, ValueType>>,
    pub outputs: Map<OutputId, OutputParam<DataType>>,
    /// For each connected input, the output that feeds it.
    pub connections: Map<InputId, OutputId>,
    pub issued_nodes: Set<NodeId>,
    pub issued_inputs: Set<InputId>,
    pub issued_outputs: Set<OutputId>,
}

impl<NodeData, DataType, ValueType> GraphModel<NodeData, DataType, ValueType> {
    /// The graph without nodes, ports or connections, in which no identity
    /// has been handed out yet.
    pub open spec fn empty() -> Self {
        GraphModel {
            nodes: Map::empty(),
            inputs: Map::empty(),
            outputs: Map::empty(),
            connections: Map::empty(),
            issued_nodes: Set::empty(),
            issued_inputs: Set::empty(),
            issued_outputs: Set::empty(),
        }
    }

    /// Every node is stored under its own identity and lists no port twice.
    pub open spec fn nodes_consistent(self) -> bool {
        forall|node: NodeId| #[trigger]
            self.nodes.contains_key(node) ==> {
                &&& self.nodes[node].id == node
                &&& self.nodes[node].input_ids().no_duplicates()
                &&& self.nodes[node].output_ids().no_duplicates()
            }
    }

    /// Every port that a node lists is live and names that node as its owner.
    pub open spec fn listed_ports_owned(self) -> bool {
        &&& forall|node: NodeId, input: InputId|
            self.nodes.contains_key(node) && #[trigger] self.nodes[node].input_ids().contains(input)
                ==> self.inputs.contains_key(input) && self.inputs[input].node == node
        &&& forall|node: NodeId, output: OutputId|
            self.nodes.contains_key(node) && #[trigger] self.nodes[node].output_ids().contains(
                output,
            ) ==> self.outputs.contains_key(output) && self.outputs[output].node == node
    }

    /// Every live port is stored under its own identity, and its owner is a
    /// live node that lists it.
    pub open spec fn owned_ports_listed(self) -> bool {
        &&& forall|input: InputId| #[trigger]
            self.inputs.contains_key(input) ==> {
                &&& self.inputs[input].id == input
                &&& self.nodes.contains_key(self.inputs[input].node)
                &&& self.nodes[self.inputs[input].node].input_ids().contains(input)
            }
        &&& forall|output: OutputId| #[trigger]
            self.outputs.contains_key(output) ==> {
                &&& self.outputs[output].id == output
                &&& self.nodes.contains_key(self.outputs[output].node)
                &&& self.nodes[self.outputs[output].node].output_ids().contains(output)
            }
    }

    /// Every connection runs from a live output to a live input.
    pub open spec fn connections_live(self) -> bool {
        forall|input: InputId| #[trigger]
            self.connections.contains_key(input) ==> self.inputs.contains_key(input)
                && self.outputs.contains_key(self.connections[input])
    }

    /// Whatever is live was handed out.
    pub open spec fn live_issued(self) -> bool {
        &&& self.nodes.dom().subset_of(self.issued_nodes)
        &&& self.inputs.dom().subset_of(self.issued_inputs)
        &&& self.outputs.dom().subset_of(self.issued_outputs)
    }

    /// The invariant of a graph: no reference from a node to a port, from a
    /// port to its node, or from a connection to its two ports ever dangles,
    /// and every port belongs to exactly one node.
    pub open spec fn wf(self) -> bool {
        &&& self.nodes_consistent()
        &&& self.listed_ports_owned()
        &&& self.owned_ports_listed()
        &&& self.connections_live()
        &&& self.live_issued()
    }

    /// `later` may come after `self`: every identity that `self` has handed
    /// out is known to `later` as handed out, and is live in `later` only if
    /// it is live in `self`. So what went stale stays stale, and what is new
    /// in `later` has an identity that `self` never used.
    pub open spec fn precedes(self, later: Self) -> bool {
        &&& self.issued_nodes.subset_of(later.issued_nodes)
        &&& self.issued_inputs.subset_of(later.issued_inputs)
        &&& self.issued_outputs.subset_of(later.issued_outputs)
        &&& forall|id: NodeId|
            self.issued_nodes.contains(id) && #[trigger] later.nodes.contains_key(id)
                ==> self.nodes.contains_key(id)
        &&& forall|id: InputId|
            self.issued_inputs.contains(id) && #[trigger] later.inputs.contains_key(id)
                ==> self.inputs.contains_key(id)
        &&& forall|id: OutputId|
            self.issued_outputs.contains(id) && #[trigger] later.outputs.contains_key(id)
                ==> self.outputs.contains_key(id)
    }

    /// One operation leads from `self` to `next`: a node or a port is added
    /// under a fresh identity, a live node is removed, two live ports are
    /// connected, a connection is cut, or a live port gets a new type.
    pub open spec fn steps_to(self, next: Self) -> bool {
        ||| exists|id: NodeId, label: Seq<char>, user_data: NodeData|
            !self.issued_nodes.contains(id) && next == #[trigger] self.add_node(id, label, user_data)
        ||| exists|name: Seq<char>, port: InputParam<DataType, ValueType>|
            self.nodes.contains_key(port.node) && !self.issued_inputs.contains(port.id) && next
                == #[trigger] self.add_input_param(name, port)
        ||| exists|name: Seq<char>, port: OutputParam<DataType>|
            self.nodes.contains_key(port.node) && !self.issued_outputs.contains(port.id) && next
                == #[trigger] self.add_output_param(name, port)
        ||| exists|node: NodeId|
            self.nodes.contains_key(node) && next == #[trigger] self.remove_node(node)
        ||| exists|output: OutputId, input: InputId|
            self.inputs.contains_key(input) && self.outputs.contains_key(output) && next
                == #[trigger] self.add_connection(output, input)
        ||| exists|input: InputId| next == #[trigger] self.remove_connection(input)
        ||| exists|input: InputId, typ: DataType, value: ValueType|
            self.inputs.contains_key(input) && next == #[trigger] self.change_input_type(
                input,
                typ,
                value,
            )
        ||| exists|output: OutputId, typ: DataType|
            self.outputs.contains_key(output) && next == #[trigger] self.change_output_type(
                output,
                typ,
            )
    }

    /// The graph with a new node `id` that has no ports yet.
    pub open spec fn add_node(self, id: NodeId, label: Seq<char>, user_data: NodeData) -> Self {
        GraphModel {
            nodes: self.nodes.insert(
                id,
                NodeModel { id, label, inputs: Seq::empty(), outputs: Seq::empty(), user_data },
            ),
            issued_nodes: self.issued_nodes.insert(id),
            ..self
        }
    }

    /// The graph with the new input `port`, listed last on its owner under
    /// `name`.
    pub open spec fn add_input_param(
        self,
        name: Seq<char>,
        port: InputParam<DataType, ValueType>,
    ) -> Self {
        let owner = self.nodes[port.node];
        GraphModel {
            nodes: self.nodes.insert(
                port.node,
                NodeModel { inputs: owner.inputs.push((name, port.id)), ..owner },
            ),
            inputs: self.inputs.insert(port.id, port),
            issued_inputs: self.issued_inputs.insert(port.id),
            ..self
        }
    }

    /// The graph with the new output `port`, listed last on its owner under
    /// `name`.
    pub open spec fn add_output_param(self, name: Seq<char>, port: OutputParam<DataType>) -> Self {
        let owner = self.nodes[port.node];
        GraphModel {
            nodes: self.nodes.insert(
                port.node,
                NodeModel { outputs: owner.outputs.push((name, port.id)), ..owner },
            ),
            outputs: self.outputs.insert(port.id, port),
            issued_outputs: self.issued_outputs.insert(port.id),
            ..self
        }
    }

    /// The connection of `input` touches a port of `node`.
    pub open spec fn connection_touches(self, input: InputId, node: NodeId) -> bool {
        self.inputs[input].node == node || self.outputs[self.connections[input]].node == node
    }

    /// The graph without `node`, without the ports of `node`, and without the
    /// connections that ran to or from one of those ports.
    pub open spec fn remove_node(self, node: NodeId) -> Self {
        GraphModel {
            nodes: self.nodes.remove(node),
            inputs: self.inputs.remove_keys(
                Set::new(|input: InputId| self.inputs[input].node == node),
            ),
            outputs: self.outputs.remove_keys(
                Set::new(|output: OutputId| self.outputs[output].node == node),
            ),
            connections: self.connections.remove_keys(
                Set::new(|input: InputId| self.connection_touches(input, node)),
            ),
            ..self
        }
    }

    /// The graph in which `input` is fed from `output`, and from nothing else.
    pub open spec fn add_connection(self, output: OutputId, input: InputId) -> Self {
        GraphModel { connections: self.connections.insert(input, output), ..self }
    }

    /// The graph in which `input` is fed from nothing.
    pub open spec fn remove_connection(self, input: InputId) -> Self {
        GraphModel { connections: self.connections.remove(input), ..self }
    }

    /// The graph in which `input` has a new type and constant, and no
    /// connection.
    pub open spec fn change_input_type(
        self,
        input: InputId,
        typ: DataType,
        value: ValueType,
    ) -> Self {
        GraphModel {
            inputs: self.inputs.insert(input, InputParam { typ, value, ..self.inputs[input] }),
            connections: self.connections.remove(input),
            ..self
        }
    }

    /// The graph in which `output` has a new type and feeds no input.
    pub open spec fn change_output_type(self, output: OutputId, typ: DataType) -> Self {
        GraphModel {
            outputs: self.outputs.insert(output, OutputParam { typ, ..self.outputs[output] }),
            connections: self.connections.remove_keys(
                Set::new(|input: InputId| self.connections[input] == output),
            ),
            ..self
        }
    }
}

} // verus!
