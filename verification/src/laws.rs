//! What holds of every graph: each operation keeps the invariant, and the
//! operations relate to each other as their names promise.

use crate::id::{InputId, NodeId, OutputId};
use crate::model::{lemma_first_named_push, GraphModel};
use crate::param::{InputParam, OutputParam};
use vstd::prelude::*;

verus! {

/// A node added under a fresh identity keeps the graph well-formed.
pub proof fn lemma_add_node_wf<N, D, V>(
    m: GraphModel<N, D, V>,
    id: NodeId,
    label: Seq<char>,
    user_data: N,
)
    requires
        m.wf(),
        !m.issued_nodes.contains(id),
    ensures
        m.add_node(id, label, user_data).wf(),
{
    let g = m.add_node(id, label, user_data);
    assert(!m.nodes.dom().contains(id));
    assert(g.nodes[id].input_ids() =~= Seq::<InputId>::empty());
    assert(g.nodes[id].output_ids() =~= Seq::<OutputId>::empty());
    assert(g.nodes_consistent()) by {
        assert forall|node: NodeId| #[trigger] g.nodes.contains_key(node) implies {
            &&& g.nodes[node].id == node
            &&& g.nodes[node].input_ids().no_duplicates()
            &&& g.nodes[node].output_ids().no_duplicates()
        } by {
            if node != id {
                assert(m.nodes.contains_key(node));
            }
        }
    }
    assert(g.listed_ports_owned()) by {
        assert forall|node: NodeId, input: InputId|
            g.nodes.contains_key(node) && #[trigger] g.nodes[node].input_ids().contains(
                input,
            ) implies g.inputs.contains_key(input) && g.inputs[input].node == node by {
            assert(node != id);
            assert(m.nodes[node].input_ids().contains(input));
        }
        assert forall|node: NodeId, output: OutputId|
            g.nodes.contains_key(node) && #[trigger] g.nodes[node].output_ids().contains(
                output,
            ) implies g.outputs.contains_key(output) && g.outputs[output].node == node by {
            assert(node != id);
            assert(m.nodes[node].output_ids().contains(output));
        }
    }
    assert(g.owned_ports_listed()) by {
        assert forall|input: InputId| #[trigger] g.inputs.contains_key(input) implies {
            &&& g.inputs[input].id == input
            &&& g.nodes.contains_key(g.inputs[input].node)
            &&& g.nodes[g.inputs[input].node].input_ids().contains(input)
        } by {
            assert(m.inputs.contains_key(input));
        }
        assert forall|output: OutputId| #[trigger] g.outputs.contains_key(output) implies {
            &&& g.outputs[output].id == output
            &&& g.nodes.contains_key(g.outputs[output].node)
            &&& g.nodes[g.outputs[output].node].output_ids().contains(output)
        } by {
            assert(m.outputs.contains_key(output));
        }
    }
}

/// An input added under a fresh identity to a live node keeps the graph
/// well-formed.
pub proof fn lemma_add_input_param_wf<N, D, V>(
    m: GraphModel<N, D, V>,
    name: Seq<char>,
    port: InputParam<D, V>,
)
    requires
        m.wf(),
        m.nodes.contains_key(port.node),
        !m.issued_inputs.contains(port.id),
    ensures
        m.add_input_param(name, port).wf(),
{
    let g = m.add_input_param(name, port);
    let owner = port.node;
    assert(!m.inputs.dom().contains(port.id));
    assert(g.nodes[owner].input_ids() =~= m.nodes[owner].input_ids().push(port.id));
    assert(g.nodes[owner].output_ids() =~= m.nodes[owner].output_ids());
    assert(!m.nodes[owner].input_ids().contains(port.id));
    assert(g.nodes_consistent()) by {
        assert forall|node: NodeId| #[trigger] g.nodes.contains_key(node) implies {
            &&& g.nodes[node].id == node
            &&& g.nodes[node].input_ids().no_duplicates()
            &&& g.nodes[node].output_ids().no_duplicates()
        } by {
            assert(m.nodes.contains_key(node));
            if node == owner {
                let was = m.nodes[owner].input_ids();
                let now = g.nodes[owner].input_ids();
                assert forall|i: int, j: int| 0 <= i < now.len() && 0 <= j < now.len() && i != j implies now[i]
                    != now[j] by {
                    if i < was.len() {
                        assert(was.contains(was[i]));
                    }
                    if j < was.len() {
                        assert(was.contains(was[j]));
                    }
                }
            }
        }
    }
    assert(g.listed_ports_owned()) by {
        assert forall|node: NodeId, input: InputId|
            g.nodes.contains_key(node) && #[trigger] g.nodes[node].input_ids().contains(
                input,
            ) implies g.inputs.contains_key(input) && g.inputs[input].node == node by {
            if node == owner {
                let now = g.nodes[owner].input_ids();
                let i = choose|i: int| 0 <= i < now.len() && now[i] == input;
                if i < now.len() - 1 {
                    assert(m.nodes[owner].input_ids()[i] == input);
                    assert(m.nodes[owner].input_ids().contains(input));
                }
            } else {
                assert(m.nodes[node].input_ids().contains(input));
            }
        }
        assert forall|node: NodeId, output: OutputId|
            g.nodes.contains_key(node) && #[trigger] g.nodes[node].output_ids().contains(
                output,
            ) implies g.outputs.contains_key(output) && g.outputs[output].node == node by {
            assert(m.nodes[node].output_ids().contains(output));
        }
    }
    assert(g.owned_ports_listed()) by {
        assert forall|input: InputId| #[trigger] g.inputs.contains_key(input) implies {
            &&& g.inputs[input].id == input
            &&& g.nodes.contains_key(g.inputs[input].node)
            &&& g.nodes[g.inputs[input].node].input_ids().contains(input)
        } by {
            let now = g.nodes[owner].input_ids();
            if input == port.id {
                assert(now[now.len() - 1] == input);
            } else {
                assert(m.inputs.contains_key(input));
                if m.inputs[input].node == owner {
                    let was = m.nodes[owner].input_ids();
                    let i = choose|i: int| 0 <= i < was.len() && was[i] == input;
                    assert(now[i] == input);
                }
            }
        }
        assert forall|output: OutputId| #[trigger] g.outputs.contains_key(output) implies {
            &&& g.outputs[output].id == output
            &&& g.nodes.contains_key(g.outputs[output].node)
            &&& g.nodes[g.outputs[output].node].output_ids().contains(output)
        } by {
            assert(m.outputs.contains_key(output));
        }
    }
    assert(g.connections_live()) by {
        assert forall|input: InputId| #[trigger] g.connections.contains_key(input) implies g.inputs.contains_key(
            input,
        ) && g.outputs.contains_key(g.connections[input]) by {
            assert(m.connections.contains_key(input));
        }
    }
}

/// An output added under a fresh identity to a live node keeps the graph
/// well-formed.
pub proof fn lemma_add_output_param_wf<N, D, V>(
    m: GraphModel<N, D, V>,
    name: Seq<char>,
    port: OutputParam<D>,
)
    requires
        m.wf(),
        m.nodes.contains_key(port.node),
        !m.issued_outputs.contains(port.id),
    ensures
        m.add_output_param(name, port).wf(),
{
    let g = m.add_output_param(name, port);
    let owner = port.node;
    assert(!m.outputs.dom().contains(port.id));
    assert(g.nodes[owner].output_ids() =~= m.nodes[owner].output_ids().push(port.id));
    assert(g.nodes[owner].input_ids() =~= m.nodes[owner].input_ids());
    assert(!m.nodes[owner].output_ids().contains(port.id));
    assert(g.nodes_consistent()) by {
        assert forall|node: NodeId| #[trigger] g.nodes.contains_key(node) implies {
            &&& g.nodes[node].id == node
            &&& g.nodes[node].input_ids().no_duplicates()
            &&& g.nodes[node].output_ids().no_duplicates()
        } by {
            assert(m.nodes.contains_key(node));
            if node == owner {
                let was = m.nodes[owner].output_ids();
                let now = g.nodes[owner].output_ids();
                assert forall|i: int, j: int| 0 <= i < now.len() && 0 <= j < now.len() && i != j implies now[i]
                    != now[j] by {
                    if i < was.len() {
                        assert(was.contains(was[i]));
                    }
                    if j < was.len() {
                        assert(was.contains(was[j]));
                    }
                }
            }
        }
    }
    assert(g.listed_ports_owned()) by {
        assert forall|node: NodeId, output: OutputId|
            g.nodes.contains_key(node) && #[trigger] g.nodes[node].output_ids().contains(
                output,
            ) implies g.outputs.contains_key(output) && g.outputs[output].node == node by {
            if node == owner {
                let now = g.nodes[owner].output_ids();
                let i = choose|i: int| 0 <= i < now.len() && now[i] == output;
                if i < now.len() - 1 {
                    assert(m.nodes[owner].output_ids()[i] == output);
                    assert(m.nodes[owner].output_ids().contains(output));
                }
            } else {
                assert(m.nodes[node].output_ids().contains(output));
            }
        }
        assert forall|node: NodeId, input: InputId|
            g.nodes.contains_key(node) && #[trigger] g.nodes[node].input_ids().contains(
                input,
            ) implies g.inputs.contains_key(input) && g.inputs[input].node == node by {
            assert(m.nodes[node].input_ids().contains(input));
        }
    }
    assert(g.owned_ports_listed()) by {
        assert forall|output: OutputId| #[trigger] g.outputs.contains_key(output) implies {
            &&& g.outputs[output].id == output
            &&& g.nodes.contains_key(g.outputs[output].node)
            &&& g.nodes[g.outputs[output].node].output_ids().contains(output)
        } by {
            let now = g.nodes[owner].output_ids();
            if output == port.id {
                assert(now[now.len() - 1] == output);
            } else {
                assert(m.outputs.contains_key(output));
                if m.outputs[output].node == owner {
                    let was = m.nodes[owner].output_ids();
                    let i = choose|i: int| 0 <= i < was.len() && was[i] == output;
                    assert(now[i] == output);
                }
            }
        }
        assert forall|input: InputId| #[trigger] g.inputs.contains_key(input) implies {
            &&& g.inputs[input].id == input
            &&& g.nodes.contains_key(g.inputs[input].node)
            &&& g.nodes[g.inputs[input].node].input_ids().contains(input)
        } by {
            assert(m.inputs.contains_key(input));
        }
    }
    assert(g.connections_live()) by {
        assert forall|input: InputId| #[trigger] g.connections.contains_key(input) implies g.inputs.contains_key(
            input,
        ) && g.outputs.contains_key(g.connections[input]) by {
            assert(m.connections.contains_key(input));
        }
    }
}

/// Removing a node, with its ports and their connections, keeps the graph
/// well-formed.
pub proof fn lemma_remove_node_wf<N, D, V>(m: GraphModel<N, D, V>, node: NodeId)
    requires
        m.wf(),
    ensures
        m.remove_node(node).wf(),
{
    let g = m.remove_node(node);
    assert(g.nodes_consistent()) by {
        assert forall|other: NodeId| #[trigger] g.nodes.contains_key(other) implies {
            &&& g.nodes[other].id == other
            &&& g.nodes[other].input_ids().no_duplicates()
            &&& g.nodes[other].output_ids().no_duplicates()
        } by {
            assert(m.nodes.contains_key(other));
        }
    }
    assert(g.listed_ports_owned()) by {
        assert forall|other: NodeId, input: InputId|
            g.nodes.contains_key(other) && #[trigger] g.nodes[other].input_ids().contains(
                input,
            ) implies g.inputs.contains_key(input) && g.inputs[input].node == other by {
            assert(m.nodes[other].input_ids().contains(input));
        }
        assert forall|other: NodeId, output: OutputId|
            g.nodes.contains_key(other) && #[trigger] g.nodes[other].output_ids().contains(
                output,
            ) implies g.outputs.contains_key(output) && g.outputs[output].node == other by {
            assert(m.nodes[other].output_ids().contains(output));
        }
    }
    assert(g.owned_ports_listed()) by {
        assert forall|input: InputId| #[trigger] g.inputs.contains_key(input) implies {
            &&& g.inputs[input].id == input
            &&& g.nodes.contains_key(g.inputs[input].node)
            &&& g.nodes[g.inputs[input].node].input_ids().contains(input)
        } by {
            assert(m.inputs.contains_key(input));
        }
        assert forall|output: OutputId| #[trigger] g.outputs.contains_key(output) implies {
            &&& g.outputs[output].id == output
            &&& g.nodes.contains_key(g.outputs[output].node)
            &&& g.nodes[g.outputs[output].node].output_ids().contains(output)
        } by {
            assert(m.outputs.contains_key(output));
        }
    }
    assert(g.connections_live()) by {
        assert forall|input: InputId| #[trigger] g.connections.contains_key(input) implies g.inputs.contains_key(
            input,
        ) && g.outputs.contains_key(g.connections[input]) by {
            assert(m.connections.contains_key(input));
            assert(!m.connection_touches(input, node));
        }
    }
}

/// A connection between two live ports keeps the graph well-formed.
pub proof fn lemma_add_connection_wf<N, D, V>(
    m: GraphModel<N, D, V>,
    output: OutputId,
    input: InputId,
)
    requires
        m.wf(),
        m.inputs.contains_key(input),
        m.outputs.contains_key(output),
    ensures
        m.add_connection(output, input).wf(),
{
    let g = m.add_connection(output, input);
    assert forall|other: InputId| #[trigger] g.connections.contains_key(other) implies g.inputs.contains_key(
        other,
    ) && g.outputs.contains_key(g.connections[other]) by {
        if other != input {
            assert(m.connections.contains_key(other));
        }
    }
}

/// Dropping a connection keeps the graph well-formed.
pub proof fn lemma_remove_connection_wf<N, D, V>(m: GraphModel<N, D, V>, input: InputId)
    requires
        m.wf(),
    ensures
        m.remove_connection(input).wf(),
{
    let g = m.remove_connection(input);
    assert forall|other: InputId| #[trigger] g.connections.contains_key(other) implies g.inputs.contains_key(
        other,
    ) && g.outputs.contains_key(g.connections[other]) by {
        assert(m.connections.contains_key(other));
    }
}

/// Giving a live input a new type keeps the graph well-formed.
pub proof fn lemma_change_input_type_wf<N, D, V>(
    m: GraphModel<N, D, V>,
    input: InputId,
    typ: D,
    value: V,
)
    requires
        m.wf(),
        m.inputs.contains_key(input),
    ensures
        m.change_input_type(input, typ, value).wf(),
{
    let g = m.change_input_type(input, typ, value);
    assert(g.listed_ports_owned()) by {
        assert forall|node: NodeId, other: InputId|
            g.nodes.contains_key(node) && #[trigger] g.nodes[node].input_ids().contains(
                other,
            ) implies g.inputs.contains_key(other) && g.inputs[other].node == node by {
            assert(m.nodes[node].input_ids().contains(other));
        }
    }
    assert(g.owned_ports_listed()) by {
        assert forall|other: InputId| #[trigger] g.inputs.contains_key(other) implies {
            &&& g.inputs[other].id == other
            &&& g.nodes.contains_key(g.inputs[other].node)
            &&& g.nodes[g.inputs[other].node].input_ids().contains(other)
        } by {
            assert(m.inputs.contains_key(other));
        }
    }
    assert(g.connections_live()) by {
        assert forall|other: InputId| #[trigger] g.connections.contains_key(other) implies g.inputs.contains_key(
            other,
        ) && g.outputs.contains_key(g.connections[other]) by {
            assert(m.connections.contains_key(other));
        }
    }
    assert(g.inputs.dom() =~= m.inputs.dom());
}

/// Giving a live output a new type keeps the graph well-formed.
pub proof fn lemma_change_output_type_wf<N, D, V>(
    m: GraphModel<N, D, V>,
    output: OutputId,
    typ: D,
)
    requires
        m.wf(),
        m.outputs.contains_key(output),
    ensures
        m.change_output_type(output, typ).wf(),
{
    let g = m.change_output_type(output, typ);
    assert(g.listed_ports_owned()) by {
        assert forall|node: NodeId, other: OutputId|
            g.nodes.contains_key(node) && #[trigger] g.nodes[node].output_ids().contains(
                other,
            ) implies g.outputs.contains_key(other) && g.outputs[other].node == node by {
            assert(m.nodes[node].output_ids().contains(other));
        }
    }
    assert(g.owned_ports_listed()) by {
        assert forall|other: OutputId| #[trigger] g.outputs.contains_key(other) implies {
            &&& g.outputs[other].id == other
            &&& g.nodes.contains_key(g.outputs[other].node)
            &&& g.nodes[g.outputs[other].node].output_ids().contains(other)
        } by {
            assert(m.outputs.contains_key(other));
        }
    }
    assert(g.connections_live()) by {
        assert forall|other: InputId| #[trigger] g.connections.contains_key(other) implies g.inputs.contains_key(
            other,
        ) && g.outputs.contains_key(g.connections[other]) by {
            assert(m.connections.contains_key(other));
        }
    }
    assert(g.outputs.dom() =~= m.outputs.dom());
}

/// After a node is removed it is no longer in the graph, none of the ports
/// it had is live, and no connection runs to or from one of them. Every
/// connection that is left was there before, unchanged.
pub proof fn lemma_removed_node_leaves_no_trace<N, D, V>(m: GraphModel<N, D, V>, node: NodeId)
    requires
        m.wf(),
        m.nodes.contains_key(node),
    ensures
        !m.remove_node(node).nodes.contains_key(node),
        forall|input: InputId| #[trigger]
            m.nodes[node].input_ids().contains(input) ==> !m.remove_node(node).inputs.contains_key(
                input,
            ) && !m.remove_node(node).connections.contains_key(input),
        forall|output: OutputId| #[trigger]
            m.nodes[node].output_ids().contains(output) ==> !m.remove_node(
                node,
            ).outputs.contains_key(output),
        forall|input: InputId| #[trigger]
            m.remove_node(node).connections.contains_key(input) ==> {
                &&& m.connections.contains_key(input)
                &&& m.remove_node(node).connections[input] == m.connections[input]
                &&& !m.nodes[node].input_ids().contains(input)
                &&& !m.nodes[node].output_ids().contains(m.connections[input])
            },
{
    let g = m.remove_node(node);
    assert forall|input: InputId| #[trigger]
        g.connections.contains_key(input) implies !m.nodes[node].input_ids().contains(input)
        && !m.nodes[node].output_ids().contains(m.connections[input]) by {
        assert(m.connections.contains_key(input));
        assert(!m.connection_touches(input, node));
    }
}

/// Of two connections made to one input, only the later one is there.
pub proof fn lemma_later_connection_wins<N, D, V>(
    m: GraphModel<N, D, V>,
    first: OutputId,
    second: OutputId,
    input: InputId,
)
    ensures
        m.add_connection(first, input).add_connection(second, input) == m.add_connection(
            second,
            input,
        ),
        m.add_connection(first, input).add_connection(second, input).connections[input] == second,
{
    assert(m.connections.insert(input, first).insert(input, second) =~= m.connections.insert(
        input,
        second,
    ));
}

/// A connection that was cut is not there, and the others are as they were.
pub proof fn lemma_cut_connection_is_gone<N, D, V>(m: GraphModel<N, D, V>, input: InputId)
    ensures
        !m.remove_connection(input).connections.contains_key(input),
        forall|other: InputId|
            other != input ==> (#[trigger] m.remove_connection(input).connections.contains_key(other)
                == m.connections.contains_key(other)),
        forall|other: InputId| #[trigger]
            m.remove_connection(input).connections.contains_key(other) ==> m.remove_connection(
                input,
            ).connections[other] == m.connections[other],
{
}

/// An input that got a new type is connected to nothing; the connections of
/// the other inputs are as they were.
pub proof fn lemma_retyped_input_is_unconnected<N, D, V>(
    m: GraphModel<N, D, V>,
    input: InputId,
    typ: D,
    value: V,
)
    ensures
        !m.change_input_type(input, typ, value).connections.contains_key(input),
        forall|other: InputId|
            other != input ==> (#[trigger] m.change_input_type(
                input,
                typ,
                value,
            ).connections.contains_key(other) == m.connections.contains_key(other)),
        forall|other: InputId| #[trigger]
            m.change_input_type(input, typ, value).connections.contains_key(other)
                ==> m.change_input_type(input, typ, value).connections[other] == m.connections[other],
{
}

/// An output that got a new type feeds no input any more; the inputs that
/// other outputs fed are fed as they were.
pub proof fn lemma_retyped_output_feeds_nothing<N, D, V>(
    m: GraphModel<N, D, V>,
    output: OutputId,
    typ: D,
)
    ensures
        forall|input: InputId| #[trigger]
            m.connections.contains_key(input) && m.connections[input] == output
                ==> !m.change_output_type(output, typ).connections.contains_key(input),
        forall|input: InputId| #[trigger]
            m.connections.contains_key(input) && m.connections[input] != output
                ==> m.change_output_type(output, typ).connections.contains_pair(
                input,
                m.connections[input],
            ),
        forall|input: InputId| #[trigger]
            m.change_output_type(output, typ).connections.contains_key(input)
                ==> m.connections.contains_key(input) && m.connections[input] != output,
{
}

/// An input added under a name that its node did not have yet is what a
/// lookup by that name finds.
pub proof fn lemma_added_input_found_by_name<N, D, V>(
    m: GraphModel<N, D, V>,
    name: Seq<char>,
    port: InputParam<D, V>,
)
    requires
        m.nodes.contains_key(port.node),
        m.nodes[port.node].input_named(name) is None,
    ensures
        m.add_input_param(name, port).nodes[port.node].input_named(name) == Some(port.id),
{
    lemma_first_named_push(m.nodes[port.node].inputs, (name, port.id), name);
}

/// An output added under a name that its node did not have yet is what a
/// lookup by that name finds.
pub proof fn lemma_added_output_found_by_name<N, D, V>(
    m: GraphModel<N, D, V>,
    name: Seq<char>,
    port: OutputParam<D>,
)
    requires
        m.nodes.contains_key(port.node),
        m.nodes[port.node].output_named(name) is None,
    ensures
        m.add_output_param(name, port).nodes[port.node].output_named(name) == Some(port.id),
{
    lemma_first_named_push(m.nodes[port.node].outputs, (name, port.id), name);
}

/// A port added under a name that its node already had stays hidden from
/// lookups by name: they go on finding the port that had the name first.
pub proof fn lemma_earlier_name_shadows<N, D, V>(
    m: GraphModel<N, D, V>,
    name: Seq<char>,
    input: InputParam<D, V>,
    output: OutputParam<D>,
    wanted: Seq<char>,
)
    ensures
        m.nodes[input.node].input_named(wanted) is Some ==> m.add_input_param(
            name,
            input,
        ).nodes[input.node].input_named(wanted) == m.nodes[input.node].input_named(wanted),
        m.nodes[output.node].output_named(wanted) is Some ==> m.add_output_param(
            name,
            output,
        ).nodes[output.node].output_named(wanted) == m.nodes[output.node].output_named(wanted),
{
    lemma_first_named_push(m.nodes[input.node].inputs, (name, input.id), wanted);
    lemma_first_named_push(m.nodes[output.node].outputs, (name, output.id), wanted);
}

/// Every operation keeps the invariant, and never makes a stale identity
/// live again: along any sequence of operations a graph stays well-formed,
/// so that at no point a connection names a port that is gone or an input
/// has two sources.
pub proof fn lemma_step_keeps_invariant<N, D, V>(m: GraphModel<N, D, V>, next: GraphModel<N, D, V>)
    requires
        m.wf(),
        m.steps_to(next),
    ensures
        next.wf(),
        m.precedes(next),
{
    if exists|id: NodeId, label: Seq<char>, user_data: N|
        !m.issued_nodes.contains(id) && next == #[trigger] m.add_node(id, label, user_data) {
        let (id, label, user_data) = choose|id: NodeId, label: Seq<char>, user_data: N|
            !m.issued_nodes.contains(id) && next == #[trigger] m.add_node(id, label, user_data);
        lemma_add_node_wf(m, id, label, user_data);
    } else if exists|name: Seq<char>, port: InputParam<D, V>|
        m.nodes.contains_key(port.node) && !m.issued_inputs.contains(port.id) && next
            == #[trigger] m.add_input_param(name, port) {
        let (name, port) = choose|name: Seq<char>, port: InputParam<D, V>|
            m.nodes.contains_key(port.node) && !m.issued_inputs.contains(port.id) && next
                == #[trigger] m.add_input_param(name, port);
        lemma_add_input_param_wf(m, name, port);
    } else if exists|name: Seq<char>, port: OutputParam<D>|
        m.nodes.contains_key(port.node) && !m.issued_outputs.contains(port.id) && next
            == #[trigger] m.add_output_param(name, port) {
        let (name, port) = choose|name: Seq<char>, port: OutputParam<D>|
            m.nodes.contains_key(port.node) && !m.issued_outputs.contains(port.id) && next
                == #[trigger] m.add_output_param(name, port);
        lemma_add_output_param_wf(m, name, port);
    } else if exists|node: NodeId|
        m.nodes.contains_key(node) && next == #[trigger] m.remove_node(node) {
        let node = choose|node: NodeId|
            m.nodes.contains_key(node) && next == #[trigger] m.remove_node(node);
        lemma_remove_node_wf(m, node);
    } else if exists|output: OutputId, input: InputId|
        m.inputs.contains_key(input) && m.outputs.contains_key(output) && next
            == #[trigger] m.add_connection(output, input) {
        let (output, input) = choose|output: OutputId, input: InputId|
            m.inputs.contains_key(input) && m.outputs.contains_key(output) && next
                == #[trigger] m.add_connection(output, input);
        lemma_add_connection_wf(m, output, input);
    } else if exists|input: InputId| next == #[trigger] m.remove_connection(input) {
        let input = choose|input: InputId| next == #[trigger] m.remove_connection(input);
        lemma_remove_connection_wf(m, input);
    } else if exists|input: InputId, typ: D, value: V|
        m.inputs.contains_key(input) && next == #[trigger] m.change_input_type(input, typ, value) {
        let (input, typ, value) = choose|input: InputId, typ: D, value: V|
            m.inputs.contains_key(input) && next == #[trigger] m.change_input_type(
                input,
                typ,
                value,
            );
        lemma_change_input_type_wf(m, input, typ, value);
    } else {
        let (output, typ) = choose|output: OutputId, typ: D|
            m.outputs.contains_key(output) && next == #[trigger] m.change_output_type(output, typ);
        lemma_change_output_type_wf(m, output, typ);
    }
}

/// What comes after a later graph comes after the earlier one too: an
/// identity that is stale once is stale for good.
pub proof fn lemma_precedes_is_transitive<N, D, V>(
    a: GraphModel<N, D, V>,
    b: GraphModel<N, D, V>,
    c: GraphModel<N, D, V>,
)
    requires
        a.precedes(b),
        b.precedes(c),
    ensures
        a.precedes(c),
{
    assert forall|id: NodeId|
        a.issued_nodes.contains(id) && #[trigger] c.nodes.contains_key(id) implies a.nodes.contains_key(
        id,
    ) by {
        assert(b.issued_nodes.contains(id));
        assert(b.nodes.contains_key(id));
    }
    assert forall|id: InputId|
        a.issued_inputs.contains(id) && #[trigger] c.inputs.contains_key(
            id,
        ) implies a.inputs.contains_key(id) by {
        assert(b.issued_inputs.contains(id));
        assert(b.inputs.contains_key(id));
    }
    assert forall|id: OutputId|
        a.issued_outputs.contains(id) && #[trigger] c.outputs.contains_key(
            id,
        ) implies a.outputs.contains_key(id) by {
        assert(b.issued_outputs.contains(id));
        assert(b.outputs.contains_key(id));
    }
}

} // verus!
