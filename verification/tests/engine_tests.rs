use cillio::config::{EdgeData, GraphConfig, NodeData};
use cillio::engine::{EngineAction, EngineEvent, ExecutionEngine, StepStatus};
use cillio::graph::Graph;
use cillio::host::RuntimeError;
use cillio::plan::ExecutionPlan;
use cillio::value::{Value, ValueRecord};

fn node(node_type: &str) -> NodeData {
    NodeData { node_type: String::from(node_type), state: None }
}

fn sum_graph() -> Graph {
    let mut config = GraphConfig::new();
    config.insert_node(String::from("n1"), node("emit"));
    config.insert_node(String::from("n2"), node("add"));
    config.add_edge(EdgeData {
        from: String::from("n1"),
        to: String::from("n2"),
        from_port: Some(String::from("number")),
        to_port: Some(String::from("a")),
    });
    Graph::new(&config).unwrap()
}

fn engine_for(graph: Graph) -> ExecutionEngine {
    let plan = ExecutionPlan::from_graph(&graph).unwrap();
    ExecutionEngine::new(graph, plan)
}

fn f32_value(x: f32) -> Value {
    Value::Float32(x.to_bits())
}

fn expect_f32(v: Option<&Value>) -> f32 {
    match v {
        Some(Value::Float32(bits)) => f32::from_bits(*bits),
        other => panic!("expected a 32-bit number, got {other:?}"),
    }
}

/// Drives one node through load and instantiation, answering success.
fn bring_up(engine: &mut ExecutionEngine, id: &str) {
    match engine.next_action() {
        EngineAction::Load { node_id, .. } => assert_eq!(node_id, id),
        other => panic!("expected a load action, got {other:?}"),
    }
    engine.apply(EngineEvent::LoadCompleted);
    match engine.next_action() {
        EngineAction::Instantiate { node_id } => assert_eq!(node_id, id),
        other => panic!("expected an instantiate action, got {other:?}"),
    }
    engine.apply(EngineEvent::InstantiateCompleted);
}

#[test]
fn sum_graph_end_to_end() {
    let mut engine = engine_for(sum_graph());

    // First step: the producer n1, invoked with no inputs.
    bring_up(&mut engine, "n1");
    match engine.next_action() {
        EngineAction::Invoke { node_id, inputs } => {
            assert_eq!(node_id, "n1");
            assert_eq!(inputs.len(), 0);
        },
        other => panic!("expected an invoke action, got {other:?}"),
    }
    let mut n1_out = ValueRecord::new();
    n1_out.set(String::from("number"), f32_value(42.0));
    engine.apply(EngineEvent::InvokeCompleted(n1_out));

    // Second step: the transformer n2; the edge routes n1.number to n2.a.
    bring_up(&mut engine, "n2");
    match engine.next_action() {
        EngineAction::Invoke { node_id, inputs } => {
            assert_eq!(node_id, "n2");
            assert_eq!(inputs.len(), 1);
            assert_eq!(expect_f32(inputs.get(&String::from("a"))), 42.0);
            assert!(inputs.get(&String::from("b")).is_none());
        },
        other => panic!("expected an invoke action, got {other:?}"),
    }
    let mut n2_out = ValueRecord::new();
    n2_out.set(String::from("sum"), f32_value(42.0));
    engine.apply(EngineEvent::InvokeCompleted(n2_out));

    assert!(matches!(engine.next_action(), EngineAction::Finished));
    assert!(engine.error().is_none());
    let results = engine.results();
    assert_eq!(results.len(), 2);
    let n1_rec = results.get_node_input(&String::from("n1")).unwrap();
    assert_eq!(expect_f32(n1_rec.get(&String::from("number"))), 42.0);
    let n2_rec = results.get_node_input(&String::from("n2")).unwrap();
    assert_eq!(expect_f32(n2_rec.get(&String::from("sum"))), 42.0);
}

#[test]
fn load_failure_halts_run_and_later_steps_stay_pending() {
    let mut engine = engine_for(sum_graph());
    assert!(matches!(engine.next_action(), EngineAction::Load { .. }));
    engine.apply(EngineEvent::LoadFailed(RuntimeError::WasmLoadError(String::from(
        "bad binary",
    ))));
    assert!(matches!(engine.next_action(), EngineAction::Halted));
    assert_eq!(engine.current_step(), 0);
    assert_eq!(engine.step_status(0), StepStatus::Failed);
    assert_eq!(engine.step_status(1), StepStatus::Pending);
    assert!(matches!(engine.error(), Some(RuntimeError::WasmLoadError(_))));
    assert_eq!(engine.results().len(), 0);
}

#[test]
fn instantiate_failure_for_unloaded_node_halts_run() {
    let mut engine = engine_for(sum_graph());
    engine.apply(EngineEvent::LoadCompleted);
    assert!(matches!(engine.next_action(), EngineAction::Instantiate { .. }));
    engine.apply(EngineEvent::InstantiateFailed(RuntimeError::NodeNotFoundError(String::from(
        "n1",
    ))));
    assert!(matches!(engine.next_action(), EngineAction::Halted));
    assert!(matches!(engine.error(), Some(RuntimeError::NodeNotFoundError(_))));
    assert_eq!(engine.step_status(0), StepStatus::Failed);
    assert_eq!(engine.step_status(1), StepStatus::Pending);
}

#[test]
fn invoke_failure_keeps_earlier_results() {
    let mut engine = engine_for(sum_graph());
    bring_up(&mut engine, "n1");
    let mut n1_out = ValueRecord::new();
    n1_out.set(String::from("number"), f32_value(1.5));
    engine.apply(EngineEvent::InvokeCompleted(n1_out));
    bring_up(&mut engine, "n2");
    engine.apply(EngineEvent::InvokeFailed(RuntimeError::ComputeError(String::from(
        "guest error",
    ))));
    assert!(matches!(engine.next_action(), EngineAction::Halted));
    assert!(matches!(engine.error(), Some(RuntimeError::ComputeError(_))));
    assert_eq!(engine.results().len(), 1);
    assert!(engine.results().get_node_input(&String::from("n1")).is_some());
    assert!(engine.results().get_node_input(&String::from("n2")).is_none());
}

#[test]
fn unnamed_ports_route_under_the_empty_name() {
    let mut config = GraphConfig::new();
    config.insert_node(String::from("src"), node("emit"));
    config.insert_node(String::from("dst"), node("log"));
    config.add_edge(EdgeData {
        from: String::from("src"),
        to: String::from("dst"),
        from_port: None,
        to_port: None,
    });
    let graph = Graph::new(&config).unwrap();
    let mut engine = engine_for(graph);

    bring_up(&mut engine, "src");
    let mut out = ValueRecord::new();
    out.set(String::new(), f32_value(3.5));
    engine.apply(EngineEvent::InvokeCompleted(out));

    bring_up(&mut engine, "dst");
    match engine.next_action() {
        EngineAction::Invoke { node_id, inputs } => {
            assert_eq!(node_id, "dst");
            assert_eq!(inputs.len(), 1);
            assert_eq!(expect_f32(inputs.get(&String::new())), 3.5);
        },
        other => panic!("expected an invoke action, got {other:?}"),
    }
}

#[test]
fn later_edges_override_earlier_ones_on_the_same_port() {
    let mut config = GraphConfig::new();
    config.insert_node(String::from("a"), node("emit"));
    config.insert_node(String::from("b"), node("emit"));
    config.insert_node(String::from("z"), node("log"));
    config.add_edge(EdgeData {
        from: String::from("a"),
        to: String::from("z"),
        from_port: Some(String::from("out")),
        to_port: Some(String::from("in")),
    });
    config.add_edge(EdgeData {
        from: String::from("b"),
        to: String::from("z"),
        from_port: Some(String::from("out")),
        to_port: Some(String::from("in")),
    });
    let graph = Graph::new(&config).unwrap();
    let mut engine = engine_for(graph);

    for (id, x) in [("a", 1.0f32), ("b", 2.0f32)] {
        bring_up(&mut engine, id);
        let mut out = ValueRecord::new();
        out.set(String::from("out"), f32_value(x));
        engine.apply(EngineEvent::InvokeCompleted(out));
    }
    bring_up(&mut engine, "z");
    match engine.next_action() {
        EngineAction::Invoke { inputs, .. } => {
            assert_eq!(inputs.len(), 1);
            assert_eq!(expect_f32(inputs.get(&String::from("in"))), 2.0);
        },
        other => panic!("expected an invoke action, got {other:?}"),
    }
}
