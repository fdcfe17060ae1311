use cillio::config::{EdgeData, GraphConfig, NodeData, NodeImplementationData};
use cillio::graph::{Direction, Graph, GraphError};
use cillio::value::Value;

fn node(node_type: &str) -> NodeData {
    NodeData { node_type: String::from(node_type), state: None }
}

fn edge(from: &str, to: &str) -> EdgeData {
    EdgeData { from: String::from(from), to: String::from(to), from_port: None, to_port: None }
}

fn ported_edge(from: &str, to: &str, from_port: &str, to_port: &str) -> EdgeData {
    EdgeData {
        from: String::from(from),
        to: String::from(to),
        from_port: Some(String::from(from_port)),
        to_port: Some(String::from(to_port)),
    }
}

#[test]
fn edge_and_node_constructors_keep_their_fields() {
    let e = cillio::graph::Edge::new(Some(String::from("out")), None);
    assert_eq!(e.from_port.as_deref(), Some("out"));
    assert_eq!(e.to_port, None);
    let n = cillio::graph::Node::new(String::from("n1"), node("emit"));
    assert_eq!(n.id, "n1");
    assert_eq!(n.data().node_type, "emit");
}

#[test]
fn build_empty_config() {
    let config = GraphConfig::new();
    let graph = Graph::new(&config).unwrap();
    assert_eq!(graph.nodes().len(), 0);
    assert_eq!(graph.edges().len(), 0);
}

#[test]
fn build_keeps_nodes_and_edges() {
    let mut config = GraphConfig::new();
    config.insert_node(String::from("n1"), node("emit"));
    config.insert_node(String::from("n2"), node("add"));
    config.add_edge(ported_edge("n1", "n2", "number", "a"));
    let graph = Graph::new(&config).unwrap();
    assert_eq!(graph.nodes().len(), 2);
    assert_eq!(graph.edges().len(), 1);
    let e = &graph.edges()[0];
    assert_eq!(graph.nodes()[e.from].id, "n1");
    assert_eq!(graph.nodes()[e.to].id, "n2");
    assert_eq!(e.ports.from_port.as_deref(), Some("number"));
    assert_eq!(e.ports.to_port.as_deref(), Some("a"));
}

#[test]
fn build_missing_edge_endpoint_is_node_not_found() {
    let mut config = GraphConfig::new();
    config.insert_node(String::from("a"), node("emit"));
    config.add_edge(edge("a", "x"));
    let err = Graph::new(&config).unwrap_err();
    assert_eq!(err, GraphError::NodeNotFoundError(String::from("x")));
}

#[test]
fn build_reports_first_missing_endpoint_source_first() {
    let mut config = GraphConfig::new();
    config.insert_node(String::from("a"), node("emit"));
    config.add_edge(edge("y", "x"));
    let err = Graph::new(&config).unwrap_err();
    assert_eq!(err, GraphError::NodeNotFoundError(String::from("y")));
}

#[test]
fn duplicate_node_id_replaces_earlier_entry() {
    let mut config = GraphConfig::new();
    config.insert_node(String::from("a"), node("old"));
    config.insert_node(String::from("a"), node("new"));
    assert_eq!(config.nodes().len(), 1);
    let graph = Graph::new(&config).unwrap();
    assert_eq!(graph.nodes().len(), 1);
    assert_eq!(graph.nodes()[0].data.node_type, "new");
}

#[test]
fn node_index_finds_each_node() {
    let mut config = GraphConfig::new();
    config.insert_node(String::from("a"), node("t"));
    config.insert_node(String::from("b"), node("t"));
    let graph = Graph::new(&config).unwrap();
    let ia = graph.node_index(&String::from("a")).unwrap();
    let ib = graph.node_index(&String::from("b")).unwrap();
    assert_ne!(ia, ib);
    assert_eq!(graph.nodes()[ia].id, "a");
    assert_eq!(graph.nodes()[ib].id, "b");
    assert!(graph.node_index(&String::from("zz")).is_none());
}

#[test]
fn neighbors_by_direction() {
    let mut config = GraphConfig::new();
    config.insert_node(String::from("a"), node("t"));
    config.insert_node(String::from("b"), node("t"));
    config.insert_node(String::from("c"), node("t"));
    config.add_edge(edge("a", "b"));
    config.add_edge(edge("a", "c"));
    config.add_edge(edge("b", "c"));
    let graph = Graph::new(&config).unwrap();
    let ia = graph.node_index(&String::from("a")).unwrap();
    let ic = graph.node_index(&String::from("c")).unwrap();
    let out_a = graph.neighbors(ia, Direction::Outgoing);
    assert_eq!(out_a.len(), 2);
    let in_c = graph.neighbors(ic, Direction::Incoming);
    assert_eq!(in_c.len(), 2);
    let in_a = graph.neighbors(ia, Direction::Incoming);
    assert_eq!(in_a.len(), 0);
}

#[test]
fn node_state_is_kept() {
    let mut config = GraphConfig::new();
    config.insert_node(
        String::from("a"),
        NodeData {
            node_type: String::from("emit"),
            state: Some(Value::Float64(42.5f64.to_bits())),
        },
    );
    let graph = Graph::new(&config).unwrap();
    match &graph.nodes()[0].data.state {
        Some(Value::Float64(bits)) => assert_eq!(f64::from_bits(*bits), 42.5),
        other => panic!("unexpected state: {other:?}"),
    }
}

#[test]
fn implementation_table_lookup() {
    let mut config = GraphConfig::new();
    config.insert_node_implementation(
        String::from("add"),
        NodeImplementationData {
            input: Some(vec![
                (String::from("a"), String::from("f32")),
                (String::from("b"), String::from("f32")),
            ]),
            output: Some(vec![(String::from("sum"), String::from("f32"))]),
            state: None,
            wasm: String::from("addition_node"),
        },
    );
    let found = config.node_implementation(&String::from("add")).unwrap();
    assert_eq!(found.wasm, "addition_node");
    assert!(config.node_implementation(&String::from("emit")).is_none());
}
