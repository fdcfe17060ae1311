use cillio::config::{EdgeData, GraphConfig, NodeData};
use cillio::graph::Graph;
use cillio::plan::ExecutionPlan;
use cillio::value::Value;

fn node(node_type: &str) -> NodeData {
    NodeData { node_type: String::from(node_type), state: None }
}

fn edge(from: &str, to: &str) -> EdgeData {
    EdgeData { from: String::from(from), to: String::from(to), from_port: None, to_port: None }
}

fn plan_ids(plan: &ExecutionPlan) -> Vec<String> {
    plan.steps().iter().map(|s| s.node_id.clone()).collect()
}

fn index_of(ids: &[String], id: &str) -> usize {
    ids.iter().position(|x| x == id).unwrap()
}

#[test]
fn plan_respects_every_edge_in_a_diamond() {
    let mut config = GraphConfig::new();
    for id in ["a", "b", "c", "d"] {
        config.insert_node(String::from(id), node("t"));
    }
    let edges = [("a", "b"), ("a", "c"), ("b", "d"), ("c", "d")];
    for (from, to) in edges {
        config.add_edge(edge(from, to));
    }
    let graph = Graph::new(&config).unwrap();
    let plan = ExecutionPlan::from_graph(&graph).unwrap();
    let ids = plan_ids(&plan);
    assert_eq!(ids.len(), 4);
    for (from, to) in edges {
        assert!(index_of(&ids, from) < index_of(&ids, to));
    }
}

#[test]
fn plan_of_two_node_cycle_fails() {
    let mut config = GraphConfig::new();
    config.insert_node(String::from("x"), node("t"));
    config.insert_node(String::from("y"), node("t"));
    config.add_edge(edge("x", "y"));
    config.add_edge(edge("y", "x"));
    let graph = Graph::new(&config).unwrap();
    let err = ExecutionPlan::from_graph(&graph).unwrap_err();
    assert_eq!(err.node_id, "x");
}

#[test]
fn plan_of_self_loop_fails() {
    let mut config = GraphConfig::new();
    config.insert_node(String::from("solo"), node("t"));
    config.add_edge(edge("solo", "solo"));
    let graph = Graph::new(&config).unwrap();
    let err = ExecutionPlan::from_graph(&graph).unwrap_err();
    assert_eq!(err.node_id, "solo");
}

#[test]
fn cycle_error_names_least_unplaced_node() {
    let mut config = GraphConfig::new();
    // "m" is planned fine; the cycle leaves "p" and "q" unplaced and the
    // error names the lexicographically least of them.
    config.insert_node(String::from("q"), node("t"));
    config.insert_node(String::from("p"), node("t"));
    config.insert_node(String::from("m"), node("t"));
    config.add_edge(edge("p", "q"));
    config.add_edge(edge("q", "p"));
    let graph = Graph::new(&config).unwrap();
    let err = ExecutionPlan::from_graph(&graph).unwrap_err();
    assert_eq!(err.node_id, "p");
}

#[test]
fn ties_break_by_ascending_node_id() {
    let mut config = GraphConfig::new();
    for id in ["b", "c", "a"] {
        config.insert_node(String::from(id), node("t"));
    }
    let graph = Graph::new(&config).unwrap();
    let plan = ExecutionPlan::from_graph(&graph).unwrap();
    assert_eq!(plan_ids(&plan), vec!["a", "b", "c"]);
}

#[test]
fn id_order_is_lexicographic_not_numeric() {
    let mut config = GraphConfig::new();
    for id in ["a2", "a10", "a1"] {
        config.insert_node(String::from(id), node("t"));
    }
    let graph = Graph::new(&config).unwrap();
    let plan = ExecutionPlan::from_graph(&graph).unwrap();
    assert_eq!(plan_ids(&plan), vec!["a1", "a10", "a2"]);
}

#[test]
fn planning_twice_yields_identical_orders() {
    let mut config = GraphConfig::new();
    for id in ["n3", "n1", "n4", "n2"] {
        config.insert_node(String::from(id), node("t"));
    }
    config.add_edge(edge("n3", "n1"));
    config.add_edge(edge("n4", "n2"));
    let graph = Graph::new(&config).unwrap();
    let first = ExecutionPlan::from_graph(&graph).unwrap();
    let second = ExecutionPlan::from_graph(&graph).unwrap();
    assert_eq!(plan_ids(&first), plan_ids(&second));
}

#[test]
fn adding_a_cycle_edge_turns_a_valid_plan_into_an_error() {
    let mut config = GraphConfig::new();
    for id in ["a", "b", "c"] {
        config.insert_node(String::from(id), node("t"));
    }
    config.add_edge(edge("a", "b"));
    config.add_edge(edge("b", "c"));
    let graph = Graph::new(&config).unwrap();
    assert!(ExecutionPlan::from_graph(&graph).is_ok());

    config.add_edge(edge("c", "a"));
    let cyclic = Graph::new(&config).unwrap();
    let err = ExecutionPlan::from_graph(&cyclic).unwrap_err();
    assert_eq!(err.node_id, "a");
}

#[test]
fn steps_snapshot_type_and_state() {
    let mut config = GraphConfig::new();
    config.insert_node(
        String::from("n1"),
        NodeData {
            node_type: String::from("emit"),
            state: Some(Value::Signed(7)),
        },
    );
    let graph = Graph::new(&config).unwrap();
    let plan = ExecutionPlan::from_graph(&graph).unwrap();
    assert_eq!(plan.steps().len(), 1);
    let step = &plan.steps()[0];
    assert_eq!(step.node_id, "n1");
    assert_eq!(step.node_type, "emit");
    assert_eq!(step.node_state, Some(Value::Signed(7)));
}

#[test]
fn empty_graph_has_empty_plan() {
    let config = GraphConfig::new();
    let graph = Graph::new(&config).unwrap();
    let plan = ExecutionPlan::from_graph(&graph).unwrap();
    assert_eq!(plan.steps().len(), 0);
}
