use egui_node_graph::{
    AnyParameterId, EguiGraphError, Graph, InputId, InputParamKind, NodeId, OutputId,
};

type TestGraph = Graph<u32, &'static str, i64>;

fn plain_node(graph: &mut TestGraph, label: &str, data: u32) -> NodeId {
    graph.add_node(label.to_string(), data, |_, _| {})
}

fn input(graph: &mut TestGraph, node: NodeId, name: &str) -> InputId {
    graph.add_input_param(
        node,
        name.to_string(),
        "Int",
        0,
        InputParamKind::ConnectionOrConstant,
        true,
    )
}

fn output(graph: &mut TestGraph, node: NodeId, name: &str) -> OutputId {
    graph.add_output_param(node, name.to_string(), "Int")
}

#[test]
fn new_graph_is_empty() {
    let graph = TestGraph::new();
    assert!(graph.iter_nodes().is_empty());
    assert!(graph.iter_connections().is_empty());
}

#[test]
fn default_graph_is_empty() {
    let graph = TestGraph::default();
    assert!(graph.iter_nodes().is_empty());
    assert!(graph.iter_connections().is_empty());
}

#[test]
fn add_node_returns_a_live_identity() {
    let mut graph = TestGraph::new();
    let a = plain_node(&mut graph, "a", 7);
    let b = plain_node(&mut graph, "b", 8);
    assert_ne!(a, b);
    assert_eq!(graph.iter_nodes(), vec![a, b]);
    let node = graph.node(a).unwrap();
    assert_eq!(node.id, a);
    assert_eq!(node.label, "a");
    assert_eq!(node.user_data, 7);
    assert!(node.inputs.is_empty());
    assert!(node.outputs.is_empty());
    assert_eq!(graph.node(b).unwrap().user_data, 8);
}

#[test]
fn add_node_runs_the_initialiser_on_the_new_node() {
    let mut graph = TestGraph::new();
    let mut seen = None;
    let mut made = None;
    let id = graph.add_node("adder".to_string(), 1, |graph, id| {
        seen = Some(id);
        assert!(graph.node(id).is_some());
        let a = graph.add_input_param(
            id,
            "a".to_string(),
            "Int",
            1,
            InputParamKind::ConnectionOrConstant,
            true,
        );
        let b = graph.add_input_param(
            id,
            "b".to_string(),
            "Int",
            2,
            InputParamKind::ConstantOnly,
            false,
        );
        let sum = graph.add_output_param(id, "sum".to_string(), "Int");
        made = Some((a, b, sum));
    });
    assert_eq!(seen, Some(id));
    let (a, b, sum) = made.unwrap();
    let node = graph.node(id).unwrap();
    assert_eq!(node.input_ids(), vec![a, b]);
    assert_eq!(node.output_ids(), vec![sum]);
    assert_eq!(node.inputs, vec![("a".to_string(), a), ("b".to_string(), b)]);
    assert_eq!(node.outputs, vec![("sum".to_string(), sum)]);
}

#[test]
fn add_input_param_stores_the_record() {
    let mut graph = TestGraph::new();
    let node = plain_node(&mut graph, "n", 0);
    let id = graph.add_input_param(
        node,
        "x".to_string(),
        "Float",
        42,
        InputParamKind::ConnectionOnly,
        false,
    );
    let port = graph.get_input(id);
    assert_eq!(port.id, id);
    assert_eq!(port.typ, "Float");
    assert_eq!(*port.value(), 42);
    assert_eq!(port.kind(), InputParamKind::ConnectionOnly);
    assert_eq!(port.node(), node);
    assert!(!port.shown_inline);
    assert_eq!(graph.any_param_type(AnyParameterId::Input(id)), Ok(&"Float"));
}

#[test]
fn add_output_param_stores_the_record() {
    let mut graph = TestGraph::new();
    let node = plain_node(&mut graph, "n", 0);
    let id = graph.add_output_param(node, "y".to_string(), "Text");
    let port = graph.get_output(id);
    assert_eq!(port.id, id);
    assert_eq!(port.node, node);
    assert_eq!(port.typ, "Text");
    assert_eq!(graph.any_param_type(AnyParameterId::Output(id)), Ok(&"Text"));
}

#[test]
fn added_port_is_found_by_name() {
    let mut graph = TestGraph::new();
    let node = plain_node(&mut graph, "n", 0);
    let x = input(&mut graph, node, "x");
    assert_eq!(graph.node(node).unwrap().get_input("x"), Ok(x));
    let y = output(&mut graph, node, "y");
    assert_eq!(graph.node(node).unwrap().get_output("y"), Ok(y));
    let z = input(&mut graph, node, "z");
    assert_eq!(graph.node(node).unwrap().get_input("z"), Ok(z));
    assert_eq!(graph.node(node).unwrap().get_input("x"), Ok(x));
}

#[test]
fn of_two_ports_with_one_name_the_first_is_found() {
    let mut graph = TestGraph::new();
    let node = plain_node(&mut graph, "n", 0);
    let first = input(&mut graph, node, "x");
    let second = input(&mut graph, node, "x");
    assert_ne!(first, second);
    assert_eq!(graph.node(node).unwrap().get_input("x"), Ok(first));
    assert_eq!(graph.node(node).unwrap().input_ids(), vec![first, second]);
    let out_first = output(&mut graph, node, "y");
    let out_second = output(&mut graph, node, "y");
    assert_eq!(graph.node(node).unwrap().get_output("y"), Ok(out_first));
    assert_eq!(graph.node(node).unwrap().output_ids(), vec![out_first, out_second]);
}

#[test]
fn lookup_of_a_name_never_added_fails() {
    let mut graph = TestGraph::new();
    let node = plain_node(&mut graph, "n", 0);
    input(&mut graph, node, "x");
    output(&mut graph, node, "y");
    assert_eq!(
        graph.node(node).unwrap().get_input("nope"),
        Err(EguiGraphError::NoParameterNamed(node, "nope".to_string()))
    );
    assert_eq!(
        graph.node(node).unwrap().get_output("x"),
        Err(EguiGraphError::NoParameterNamed(node, "x".to_string()))
    );
    assert_eq!(
        graph.node(node).unwrap().get_input(""),
        Err(EguiGraphError::NoParameterNamed(node, String::new()))
    );
}

#[test]
fn lookup_is_on_the_node_that_owns_the_name() {
    let mut graph = TestGraph::new();
    let a = plain_node(&mut graph, "a", 0);
    let b = plain_node(&mut graph, "b", 0);
    let on_a = input(&mut graph, a, "x");
    let on_b = input(&mut graph, b, "x");
    assert_eq!(graph.node(a).unwrap().get_input("x"), Ok(on_a));
    assert_eq!(graph.node(b).unwrap().get_input("x"), Ok(on_b));
    assert_eq!(graph.get_input(on_a).node(), a);
    assert_eq!(graph.get_input(on_b).node(), b);
}

#[test]
fn connection_is_what_was_connected() {
    let mut graph = TestGraph::new();
    let a = plain_node(&mut graph, "a", 0);
    let b = plain_node(&mut graph, "b", 0);
    let out = output(&mut graph, a, "out");
    let inp = input(&mut graph, b, "in");
    assert_eq!(graph.connection(inp), None);
    graph.add_connection(out, inp);
    assert_eq!(graph.connection(inp), Some(out));
    assert_eq!(graph.iter_connections(), vec![(inp, out)]);
}

#[test]
fn later_connection_replaces_the_earlier_one() {
    let mut graph = TestGraph::new();
    let a = plain_node(&mut graph, "a", 0);
    let b = plain_node(&mut graph, "b", 0);
    let first = output(&mut graph, a, "first");
    let second = output(&mut graph, a, "second");
    let inp = input(&mut graph, b, "in");
    graph.add_connection(first, inp);
    graph.add_connection(second, inp);
    assert_eq!(graph.connection(inp), Some(second));
    assert_eq!(graph.iter_connections(), vec![(inp, second)]);
}

#[test]
fn one_output_may_feed_many_inputs() {
    let mut graph = TestGraph::new();
    let a = plain_node(&mut graph, "a", 0);
    let b = plain_node(&mut graph, "b", 0);
    let out = output(&mut graph, a, "out");
    let p = input(&mut graph, b, "p");
    let q = input(&mut graph, b, "q");
    graph.add_connection(out, p);
    graph.add_connection(out, q);
    assert_eq!(graph.connection(p), Some(out));
    assert_eq!(graph.connection(q), Some(out));
    assert_eq!(graph.iter_connections(), vec![(p, out), (q, out)]);
}

#[test]
fn a_node_may_feed_itself() {
    let mut graph = TestGraph::new();
    let a = plain_node(&mut graph, "a", 0);
    let out = output(&mut graph, a, "out");
    let inp = input(&mut graph, a, "in");
    graph.add_connection(out, inp);
    assert_eq!(graph.connection(inp), Some(out));
}

#[test]
fn connection_does_not_compare_types() {
    let mut graph = TestGraph::new();
    let a = plain_node(&mut graph, "a", 0);
    let out = graph.add_output_param(a, "out".to_string(), "Text");
    let inp = graph.add_input_param(
        a,
        "in".to_string(),
        "Int",
        0,
        InputParamKind::ConnectionOnly,
        true,
    );
    graph.add_connection(out, inp);
    assert_eq!(graph.connection(inp), Some(out));
}

#[test]
fn remove_connection_returns_what_was_connected() {
    let mut graph = TestGraph::new();
    let a = plain_node(&mut graph, "a", 0);
    let out = output(&mut graph, a, "out");
    let p = input(&mut graph, a, "p");
    let q = input(&mut graph, a, "q");
    graph.add_connection(out, p);
    graph.add_connection(out, q);
    assert_eq!(graph.remove_connection(p), Some(out));
    assert_eq!(graph.connection(p), None);
    assert_eq!(graph.connection(q), Some(out));
    assert_eq!(graph.remove_connection(p), None);
    assert_eq!(graph.iter_connections(), vec![(q, out)]);
}

#[test]
fn remove_connection_of_an_unconnected_input_is_nothing() {
    let mut graph = TestGraph::new();
    let a = plain_node(&mut graph, "a", 0);
    let p = input(&mut graph, a, "p");
    assert_eq!(graph.remove_connection(p), None);
    assert!(graph.iter_connections().is_empty());
}

#[test]
fn removing_a_node_cuts_the_connections_of_its_ports() {
    let mut graph = TestGraph::new();
    let n1 = plain_node(&mut graph, "N1", 0);
    let n2 = plain_node(&mut graph, "N2", 0);
    let out_id = output(&mut graph, n1, "out");
    let in_id = input(&mut graph, n2, "in");
    graph.add_connection(out_id, in_id);
    assert_eq!(graph.connection(in_id), Some(out_id));
    graph.remove_node(n1);
    assert_eq!(graph.connection(in_id), None);
    assert_eq!(
        graph.any_param_type(AnyParameterId::Output(out_id)),
        Err(EguiGraphError::InvalidParameterId(AnyParameterId::Output(out_id)))
    );
    assert_eq!(graph.iter_nodes(), vec![n2]);
    assert!(graph.node(n1).is_none());
    assert_eq!(graph.get_input(in_id).node(), n2);
}

#[test]
fn removing_a_node_leaves_no_connection_to_its_ports() {
    let mut graph = TestGraph::new();
    let a = plain_node(&mut graph, "a", 0);
    let b = plain_node(&mut graph, "b", 0);
    let c = plain_node(&mut graph, "c", 0);
    let a_out = output(&mut graph, a, "out");
    let b_in = input(&mut graph, b, "in");
    let b_out = output(&mut graph, b, "out");
    let c_in = input(&mut graph, c, "in");
    let c_other = input(&mut graph, c, "other");
    let a_in = input(&mut graph, a, "in");
    graph.add_connection(a_out, b_in);
    graph.add_connection(b_out, c_in);
    graph.add_connection(a_out, c_other);
    graph.add_connection(b_out, a_in);
    graph.remove_node(b);
    assert_eq!(graph.iter_nodes(), vec![a, c]);
    assert_eq!(graph.iter_connections(), vec![(c_other, a_out)]);
    for (input, output) in graph.iter_connections() {
        assert_ne!(input, b_in);
        assert_ne!(output, b_out);
    }
    assert_eq!(graph.connection(c_in), None);
    assert_eq!(graph.connection(a_in), None);
    assert_eq!(graph.connection(b_in), None);
    assert_eq!(
        graph.any_param_type(AnyParameterId::Input(b_in)),
        Err(EguiGraphError::InvalidParameterId(AnyParameterId::Input(b_in)))
    );
    assert_eq!(
        graph.any_param_type(AnyParameterId::Output(b_out)),
        Err(EguiGraphError::InvalidParameterId(AnyParameterId::Output(b_out)))
    );
    assert_eq!(graph.any_param_type(AnyParameterId::Input(c_in)), Ok(&"Int"));
}

#[test]
fn removing_the_only_node_empties_the_graph() {
    let mut graph = TestGraph::new();
    let a = plain_node(&mut graph, "a", 0);
    let out = output(&mut graph, a, "out");
    let inp = input(&mut graph, a, "in");
    graph.add_connection(out, inp);
    graph.remove_node(a);
    assert!(graph.iter_nodes().is_empty());
    assert!(graph.iter_connections().is_empty());
}

#[test]
fn no_input_stands_in_two_connections() {
    let mut graph = TestGraph::new();
    let a = plain_node(&mut graph, "a", 0);
    let b = plain_node(&mut graph, "b", 0);
    let outs: Vec<OutputId> = (0..4).map(|i| output(&mut graph, a, &format!("o{i}"))).collect();
    let ins: Vec<InputId> = (0..6).map(|i| input(&mut graph, b, &format!("i{i}"))).collect();
    for round in 0..5 {
        for (k, inp) in ins.iter().enumerate() {
            graph.add_connection(outs[(k + round) % outs.len()], *inp);
        }
        graph.remove_connection(ins[round]);
        graph.add_connection(outs[0], ins[round]);
    }
    let c = plain_node(&mut graph, "c", 0);
    let late = input(&mut graph, c, "late");
    graph.add_connection(outs[1], late);
    graph.remove_node(c);
    let all = graph.iter_connections();
    assert_eq!(all.len(), ins.len());
    for (i, (input, output)) in all.iter().enumerate() {
        assert_eq!(graph.connection(*input), Some(*output));
        for (other, _) in &all[i + 1..] {
            assert_ne!(input, other);
        }
    }
}

#[test]
fn a_stale_identity_is_never_live_again() {
    let mut graph = TestGraph::new();
    let a = plain_node(&mut graph, "a", 1);
    let a_in = input(&mut graph, a, "in");
    let a_out = output(&mut graph, a, "out");
    graph.remove_node(a);
    let b = plain_node(&mut graph, "b", 2);
    let b_in = input(&mut graph, b, "in");
    let b_out = output(&mut graph, b, "out");
    assert_ne!(a, b);
    assert_ne!(a_in, b_in);
    assert_ne!(a_out, b_out);
    assert!(graph.node(a).is_none());
    assert_eq!(graph.node(b).unwrap().user_data, 2);
    assert_eq!(
        graph.any_param_type(AnyParameterId::Input(a_in)),
        Err(EguiGraphError::InvalidParameterId(AnyParameterId::Input(a_in)))
    );
    assert_eq!(
        graph.any_param_type(AnyParameterId::Output(a_out)),
        Err(EguiGraphError::InvalidParameterId(AnyParameterId::Output(a_out)))
    );
    graph.add_connection(b_out, b_in);
    assert_eq!(graph.connection(a_in), None);
    assert_eq!(graph.remove_connection(a_in), None);
    assert_eq!(graph.connection(b_in), Some(b_out));
    assert_eq!(graph.iter_nodes(), vec![b]);
}

#[test]
fn changing_an_input_type_cuts_its_connection() {
    let mut graph = TestGraph::new();
    let a = plain_node(&mut graph, "a", 0);
    let n = plain_node(&mut graph, "n", 0);
    let out = output(&mut graph, a, "out");
    let x = input(&mut graph, n, "x");
    let y = input(&mut graph, n, "y");
    graph.add_connection(out, x);
    graph.add_connection(out, y);
    assert_eq!(graph.change_node_input_type(n, "x", "Text", 9), Ok(()));
    assert_eq!(graph.connection(x), None);
    assert_eq!(graph.connection(y), Some(out));
    let port = graph.get_input(x);
    assert_eq!(port.typ, "Text");
    assert_eq!(*port.value(), 9);
    assert_eq!(port.kind(), InputParamKind::ConnectionOrConstant);
    assert_eq!(port.node(), n);
    assert_eq!(port.id, x);
    assert!(port.shown_inline);
    assert_eq!(graph.get_input(y).typ, "Int");
    assert_eq!(graph.node(n).unwrap().get_input("x"), Ok(x));
}

#[test]
fn changing_an_unconnected_input_type_changes_only_the_port() {
    let mut graph = TestGraph::new();
    let n = plain_node(&mut graph, "n", 0);
    let x = input(&mut graph, n, "x");
    assert_eq!(graph.change_node_input_type(n, "x", "Text", -3), Ok(()));
    assert_eq!(graph.get_input(x).typ, "Text");
    assert_eq!(*graph.get_input(x).value(), -3);
    assert!(graph.iter_connections().is_empty());
}

#[test]
fn changing_an_output_type_cuts_every_connection_it_fed() {
    let mut graph = TestGraph::new();
    let n = plain_node(&mut graph, "n", 0);
    let m = plain_node(&mut graph, "m", 0);
    let y = output(&mut graph, n, "y");
    let other = output(&mut graph, n, "other");
    let a = input(&mut graph, m, "a");
    let b = input(&mut graph, m, "b");
    let c = input(&mut graph, m, "c");
    graph.add_connection(y, a);
    graph.add_connection(y, b);
    graph.add_connection(other, c);
    assert_eq!(graph.change_node_output_type(n, "y", "Text"), Ok(()));
    assert_eq!(graph.connection(a), None);
    assert_eq!(graph.connection(b), None);
    assert_eq!(graph.connection(c), Some(other));
    assert_eq!(graph.get_output(y).typ, "Text");
    assert_eq!(graph.get_output(y).node, n);
    assert_eq!(graph.get_output(other).typ, "Int");
    assert_eq!(graph.iter_connections(), vec![(c, other)]);
}

#[test]
fn changing_a_type_on_an_unknown_node_fails() {
    let mut graph = TestGraph::new();
    let n = plain_node(&mut graph, "n", 0);
    let gone = plain_node(&mut graph, "gone", 0);
    let out = output(&mut graph, n, "out");
    let x = input(&mut graph, n, "x");
    graph.add_connection(out, x);
    graph.remove_node(gone);
    assert_eq!(
        graph.change_node_input_type(gone, "x", "Text", 1),
        Err(EguiGraphError::UnknownNode(gone))
    );
    assert_eq!(
        graph.change_node_output_type(gone, "out", "Text"),
        Err(EguiGraphError::UnknownNode(gone))
    );
    assert_eq!(graph.connection(x), Some(out));
    assert_eq!(graph.get_input(x).typ, "Int");
    assert_eq!(graph.get_output(out).typ, "Int");
}

#[test]
fn changing_a_type_under_an_unknown_name_fails() {
    let mut graph = TestGraph::new();
    let n = plain_node(&mut graph, "n", 0);
    let out = output(&mut graph, n, "out");
    let x = input(&mut graph, n, "x");
    graph.add_connection(out, x);
    assert_eq!(
        graph.change_node_input_type(n, "out", "Text", 1),
        Err(EguiGraphError::NoParameterNamed(n, "out".to_string()))
    );
    assert_eq!(
        graph.change_node_output_type(n, "x", "Text"),
        Err(EguiGraphError::NoParameterNamed(n, "x".to_string()))
    );
    assert_eq!(graph.connection(x), Some(out));
    assert_eq!(graph.get_input(x).typ, "Int");
    assert_eq!(*graph.get_input(x).value(), 0);
    assert_eq!(graph.get_output(out).typ, "Int");
}

#[test]
fn changing_a_type_by_a_shared_name_changes_the_first_port() {
    let mut graph = TestGraph::new();
    let n = plain_node(&mut graph, "n", 0);
    let first = input(&mut graph, n, "x");
    let second = input(&mut graph, n, "x");
    assert_eq!(graph.change_node_input_type(n, "x", "Text", 5), Ok(()));
    assert_eq!(graph.get_input(first).typ, "Text");
    assert_eq!(graph.get_input(second).typ, "Int");
}

#[test]
fn any_param_type_of_an_unknown_port_fails() {
    let mut graph = TestGraph::new();
    let mut other = TestGraph::new();
    let n = plain_node(&mut other, "n", 0);
    let foreign_in = input(&mut other, n, "x");
    let foreign_out = output(&mut other, n, "y");
    assert_eq!(
        graph.any_param_type(AnyParameterId::Input(foreign_in)),
        Err(EguiGraphError::InvalidParameterId(AnyParameterId::Input(foreign_in)))
    );
    assert_eq!(
        graph.any_param_type(AnyParameterId::Output(foreign_out)),
        Err(EguiGraphError::InvalidParameterId(AnyParameterId::Output(foreign_out)))
    );
    let here = plain_node(&mut graph, "here", 0);
    let mine = graph.add_output_param(here, "y".to_string(), "Text");
    assert_eq!(graph.any_param_type(AnyParameterId::Output(mine)), Ok(&"Text"));
}

#[test]
fn node_hands_out_its_port_records_in_order() {
    let mut graph = TestGraph::new();
    let n = plain_node(&mut graph, "n", 0);
    let a = graph.add_input_param(
        n,
        "a".to_string(),
        "Int",
        1,
        InputParamKind::ConnectionOnly,
        true,
    );
    let b = graph.add_input_param(
        n,
        "b".to_string(),
        "Text",
        2,
        InputParamKind::ConstantOnly,
        false,
    );
    let y = graph.add_output_param(n, "y".to_string(), "Int");
    let z = graph.add_output_param(n, "z".to_string(), "Text");
    let node = graph.node(n).unwrap();
    let inputs = node.inputs(&graph);
    assert_eq!(inputs.len(), 2);
    assert_eq!(inputs[0].id, a);
    assert_eq!(inputs[0].typ, "Int");
    assert_eq!(*inputs[0].value(), 1);
    assert_eq!(inputs[1].id, b);
    assert_eq!(inputs[1].typ, "Text");
    assert_eq!(inputs[1].kind(), InputParamKind::ConstantOnly);
    let outputs = node.outputs(&graph);
    assert_eq!(outputs.len(), 2);
    assert_eq!(outputs[0].id, y);
    assert_eq!(outputs[1].id, z);
    assert_eq!(outputs[1].typ, "Text");
    assert_eq!(node.input_ids(), vec![a, b]);
    assert_eq!(node.output_ids(), vec![y, z]);
}

#[test]
fn node_without_ports_hands_out_nothing() {
    let mut graph = TestGraph::new();
    let n = plain_node(&mut graph, "n", 0);
    let node = graph.node(n).unwrap();
    assert!(node.inputs(&graph).is_empty());
    assert!(node.outputs(&graph).is_empty());
    assert!(node.input_ids().is_empty());
    assert!(node.output_ids().is_empty());
}

#[test]
fn iter_nodes_lists_each_live_node_once() {
    let mut graph = TestGraph::new();
    let ids: Vec<NodeId> = (0..5).map(|i| plain_node(&mut graph, "n", i)).collect();
    graph.remove_node(ids[1]);
    graph.remove_node(ids[3]);
    assert_eq!(graph.iter_nodes(), vec![ids[0], ids[2], ids[4]]);
    let again = plain_node(&mut graph, "again", 9);
    let all = graph.iter_nodes();
    assert_eq!(all.len(), 4);
    assert!(all.contains(&again));
    assert!(!all.contains(&ids[1]));
    assert!(!all.contains(&ids[3]));
}
