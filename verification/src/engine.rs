//! The execution engine.
//!
//! The engine consumes a complete plan and drives one run of it, strictly in
//! plan order. Loading, instantiating and invoking a module are
//! asynchronous operations performed outside the engine: the engine is a
//! state machine. The caller asks [`ExecutionEngine::next_action`] what to
//! do, performs it, and reports the outcome through
//! [`ExecutionEngine::apply`].
//!
//! Per step the status runs Pending → Loaded → Instantiated → Completed, or
//! ends in Failed. The transient state of a running invocation is never at
//! rest in the engine: the engine observes an invocation only through its
//! outcome, which records the outputs and completes the step at once. The
//! first failure halts the whole run: the engine accepts no further event,
//! asks for nothing but [`EngineAction::Halted`], and every step after the
//! failing one stays pending forever.
//!
//! Inputs are gathered from recorded outputs: for every edge into the
//! current node, the value on the source's output port is bound to the
//! destination port, edges later in the configuration overriding earlier
//! ones on the same port. A node's sole unnamed port is stored under the
//! empty name.

use vstd::prelude::*;

use crate::assoc::assoc_lookup;
use crate::graph::{Graph, GraphEdge};
use crate::host::{RuntimeData, RuntimeError};
use crate::plan::{kahn_order, plan_complete, ExecutionPlan};
use crate::value::{Value, ValueRecord};

verus! {

/// Where one step of the run stands.
#[derive(Clone, Copy, PartialEq, Eq, Structural, Debug)]
pub enum StepStatus {
    /// Nothing has happened for this step yet.
    Pending,
    /// The node's module is compiled and cached.
    Loaded,
    /// The module is bound to a fresh execution context.
    Instantiated,
    /// The invocation returned and its outputs are recorded. Terminal.
    Completed,
    /// Loading, instantiating or invoking failed. Terminal; halts the run.
    Failed,
}

/// What the engine asks its caller to do next.
#[derive(Debug)]
pub enum EngineAction {
    /// Compile and cache the module for this node; the caller resolves the
    /// module bytes by the node's type.
    Load { node_id: String, node_type: String },
    /// Bind the node's cached module to a fresh execution context.
    Instantiate { node_id: String },
    /// Call the node's entry point with these inputs.
    Invoke { node_id: String, inputs: ValueRecord },
    /// Every step completed; the results stand in the engine's outputs.
    Finished,
    /// A step failed; the run is aborted.
    Halted,
}

/// The reported outcome of the action the engine asked for.
#[derive(Debug)]
pub enum EngineEvent {
    /// The module compiled and is cached.
    LoadCompleted,
    /// The module could not be loaded.
    LoadFailed(RuntimeError),
    /// The module is bound to an execution context.
    InstantiateCompleted,
    /// The module could not be instantiated or linked.
    InstantiateFailed(RuntimeError),
    /// The invocation returned this output record.
    InvokeCompleted(ValueRecord),
    /// The invocation reported an error.
    InvokeFailed(RuntimeError),
}

/// The source port an edge reads; the sole unnamed port is the empty name.
pub open spec fn from_key(e: GraphEdge) -> Seq<char> {
    match e.ports.from_port {
        Some(p) => p@,
        None => Seq::empty(),
    }
}

/// The destination port an edge fills; the sole unnamed port is the empty
/// name.
pub open spec fn to_key(e: GraphEdge) -> Seq<char> {
    match e.ports.to_port {
        Some(p) => p@,
        None => Seq::empty(),
    }
}

/// What an edge carries: the value on the source node's output port, if the
/// source has recorded an output with that port filled.
pub open spec fn source_value(
    g: Graph,
    outs: Seq<(String, ValueRecord)>,
    e: GraphEdge,
) -> Option<Value> {
    match assoc_lookup(outs, g.nodes_seq()[e.from as int].id@) {
        None => None,
        Some(rec) => assoc_lookup(rec@, from_key(e)),
    }
}

/// The value gathered onto port `key` of node `v` from the first `j` edges:
/// the carried value of the last such edge that carries one.
pub open spec fn gathered_upto(
    g: Graph,
    outs: Seq<(String, ValueRecord)>,
    v: int,
    key: Seq<char>,
    j: int,
) -> Option<Value>
    decreases j,
{
    if j <= 0 {
        None
    } else {
        let e = g.edges_seq()[j - 1];
        if e.to == v && to_key(e) == key {
            match source_value(g, outs, e) {
                Some(val) => Some(val),
                None => gathered_upto(g, outs, v, key, j - 1),
            }
        } else {
            gathered_upto(g, outs, v, key, j - 1)
        }
    }
}

/// The value gathered onto port `key` of node `v` from all edges.
pub open spec fn gathered_value(
    g: Graph,
    outs: Seq<(String, ValueRecord)>,
    v: int,
    key: Seq<char>,
) -> Option<Value> {
    gathered_upto(g, outs, v, key, g.edges_seq().len() as int)
}

/// Builds the input record of node `v` from the recorded outputs.
fn gather_inputs(g: &Graph, outputs: &RuntimeData, v: usize) -> (r: ValueRecord)
    requires
        g.wf(),
        outputs.wf(),
        forall|i: int| 0 <= i < outputs@.len() ==> (#[trigger] outputs@[i]).1.wf(),
        (v as int) < g.nodes_seq().len(),
    ensures
        r.wf(),
        forall|key: Seq<char>|
            assoc_lookup(r@, key) == gathered_value(*g, outputs@, v as int, key),
{
    let nodes = g.nodes();
    let edges = g.edges();
    let m = edges.len();
    let mut rec = ValueRecord::new();
    let mut j: usize = 0;
    while j < m
        invariant
            j <= m,
            m == g.edges_seq().len(),
            edges@ == g.edges_seq(),
            nodes@ == g.nodes_seq(),
            g.wf(),
            outputs.wf(),
            forall|i: int| 0 <= i < outputs@.len() ==> (#[trigger] outputs@[i]).1.wf(),
            rec.wf(),
            forall|key: Seq<char>|
                assoc_lookup(rec@, key) == gathered_upto(*g, outputs@, v as int, key, j as int),
        decreases m - j,
    {
        let e = &edges[j];
        if e.to == v {
            let src_id = &nodes[e.from].id;
            match outputs.get_node_input(src_id) {
                Some(src_rec) => {
                    proof {
                        lemma_record_entry_wf(outputs@, src_id@);
                    }
                    let fkey = match &e.ports.from_port {
                        Some(p) => p.clone(),
                        None => String::new(),
                    };
                    match src_rec.get(&fkey) {
                        Some(val) => {
                            let tkey = match &e.ports.to_port {
                                Some(p) => p.clone(),
                                None => String::new(),
                            };
                            rec.set(tkey, val.duplicate());
                        },
                        None => {},
                    }
                },
                None => {},
            }
        }
        j = j + 1;
    }
    rec
}

/// An entry found by lookup is one of the store's entries, so it is
/// well-formed when they all are.
proof fn lemma_record_entry_wf(outs: Seq<(String, ValueRecord)>, key: Seq<char>)
    requires
        forall|i: int| 0 <= i < outs.len() ==> (#[trigger] outs[i]).1.wf(),
        assoc_lookup(outs, key) is Some,
    ensures
        assoc_lookup(outs, key)->Some_0.wf(),
    decreases outs.len(),
{
    if outs.len() > 0 && outs[0].0@ != key {
        assert(forall|i: int| 0 <= i < outs.len() - 1 ==> #[trigger] outs.skip(1)[i] == outs[i + 1]);
        lemma_record_entry_wf(outs.skip(1), key);
    }
}

/// The transition every failure takes: the current step fails, the run
/// halts with the reported error, and nothing else changes.
pub open spec fn halted_to(pre: ExecutionEngine, post: ExecutionEngine, e: RuntimeError) -> bool {
    &&& post.statuses_seq() == pre.statuses_seq().update(pre.current_spec(), StepStatus::Failed)
    &&& post.current_spec() == pre.current_spec()
    &&& post.outputs_seq() == pre.outputs_seq()
    &&& post.error_spec() == Some(e)
}

/// One run of a plan, step by step.
pub struct ExecutionEngine {
    graph: Graph,
    plan: ExecutionPlan,
    statuses: Vec<StepStatus>,
    current: usize,
    outputs: RuntimeData,
    error: Option<RuntimeError>,
}

impl ExecutionEngine {
    /// The graph the run is over.
    pub closed spec fn graph_spec(self) -> Graph {
        self.graph
    }

    /// The plan the run follows.
    pub closed spec fn plan_spec(self) -> ExecutionPlan {
        self.plan
    }

    /// The per-step statuses, in plan order.
    pub closed spec fn statuses_seq(self) -> Seq<StepStatus> {
        self.statuses@
    }

    /// The index of the first step that has not completed.
    pub closed spec fn current_spec(self) -> int {
        self.current as int
    }

    /// The recorded outputs: one record per completed node.
    pub closed spec fn outputs_seq(self) -> Seq<(String, ValueRecord)> {
        self.outputs@
    }

    /// The error that halted the run, if any.
    pub closed spec fn error_spec(self) -> Option<RuntimeError> {
        self.error
    }

    /// The engine's invariant: the plan is the complete planned order of the
    /// graph; steps before `current` are completed and steps after it are
    /// pending; the run is halted exactly when the current step failed; and
    /// outputs are recorded exactly for the completed steps.
    pub open spec fn wf(self) -> bool {
        let len = self.plan_spec().steps_seq().len();
        &&& self.graph_spec().wf()
        &&& plan_complete(self.graph_spec())
        &&& self.plan_spec().matches_order(self.graph_spec(), kahn_order(self.graph_spec()))
        &&& self.statuses_seq().len() == len
        &&& self.current_spec() <= len
        &&& (forall|k: int|
            0 <= k < self.current_spec() ==> self.statuses_seq()[k] is Completed)
        &&& (forall|k: int|
            self.current_spec() < k < len ==> self.statuses_seq()[k] is Pending)
        &&& (self.current_spec() < len ==> !(self.statuses_seq()[self.current_spec()]
            is Completed))
        &&& (self.error_spec() is Some <==> self.current_spec() < len
            && self.statuses_seq()[self.current_spec()] is Failed)
        &&& crate::assoc::assoc_unique(self.outputs_seq())
        &&& (forall|i: int|
            0 <= i < self.outputs_seq().len() ==> (#[trigger] self.outputs_seq()[i]).1.wf())
        &&& (forall|k: int|
            0 <= k < self.current_spec() ==> assoc_lookup(
                self.outputs_seq(),
                (#[trigger] self.plan_spec().steps_seq()[k]).node_id@,
            ) is Some)
        &&& (forall|key: Seq<char>|
            assoc_lookup(self.outputs_seq(), key) is Some ==> exists|k: int|
                0 <= k < self.current_spec() && (#[trigger] self.plan_spec().steps_seq()[k]).node_id@
                    == key)
    }

    /// The event the engine can accept next: the reported outcome of the
    /// action it asked for, with any reported record well-formed.
    pub open spec fn expects(self, event: EngineEvent) -> bool {
        let len = self.plan_spec().steps_seq().len();
        &&& self.error_spec() is None
        &&& self.current_spec() < len
        &&& match self.statuses_seq()[self.current_spec()] {
            StepStatus::Pending => event is LoadCompleted || event is LoadFailed,
            StepStatus::Loaded => event is InstantiateCompleted || event is InstantiateFailed,
            StepStatus::Instantiated => event is InvokeCompleted || event is InvokeFailed,
            _ => false,
        }
        &&& (event matches EngineEvent::InvokeCompleted(rec) ==> rec.wf())
    }

    /// Which action `a` is correct in the engine's present state.
    pub open spec fn action_is_next(self, a: EngineAction) -> bool {
        let len = self.plan_spec().steps_seq().len();
        let step = self.plan_spec().steps_seq()[self.current_spec()];
        if self.error_spec() is Some {
            a is Halted
        } else if self.current_spec() == len {
            a is Finished
        } else {
            match self.statuses_seq()[self.current_spec()] {
                StepStatus::Pending => a matches EngineAction::Load { node_id, node_type }
                    && node_id@ == step.node_id@ && node_type@ == step.node_type@,
                StepStatus::Loaded => a matches EngineAction::Instantiate { node_id } && node_id@
                    == step.node_id@,
                StepStatus::Instantiated => a matches EngineAction::Invoke { node_id, inputs }
                    && node_id@ == step.node_id@ && inputs.wf() && (forall|key: Seq<char>|
                    assoc_lookup(inputs@, key) == gathered_value(
                        self.graph_spec(),
                        self.outputs_seq(),
                        kahn_order(self.graph_spec())[self.current_spec()] as int,
                        key,
                    )),
                _ => false,
            }
        }
    }

    /// Sets up a run of `plan` over `graph`, every step pending.
    pub fn new(graph: Graph, plan: ExecutionPlan) -> (r: ExecutionEngine)
        requires
            graph.wf(),
            plan_complete(graph),
            plan.matches_order(graph, kahn_order(graph)),
        ensures
            r.wf(),
            r.graph_spec() == graph,
            r.plan_spec() == plan,
            r.current_spec() == 0,
            r.outputs_seq().len() == 0,
            r.error_spec() is None,
            forall|k: int| 0 <= k < r.statuses_seq().len() ==> r.statuses_seq()[k] is Pending,
    {
        let len = plan.steps().len();
        let mut statuses: Vec<StepStatus> = Vec::new();
        let mut i: usize = 0;
        while i < len
            invariant
                i <= len,
                statuses@.len() == i,
                forall|k: int| 0 <= k < i ==> statuses@[k] is Pending,
            decreases len - i,
        {
            statuses.push(StepStatus::Pending);
            i = i + 1;
        }
        ExecutionEngine {
            graph,
            plan,
            statuses,
            current: 0,
            outputs: RuntimeData::new(),
            error: None,
        }
    }

    /// What the caller must do next.
    pub fn next_action(&self) -> (a: EngineAction)
        requires
            self.wf(),
        ensures
            self.action_is_next(a),
    {
        match &self.error {
            Some(_) => {
                return EngineAction::Halted;
            },
            None => {},
        }
        let len = self.plan.steps().len();
        if self.current == len {
            return EngineAction::Finished;
        }
        let step = &self.plan.steps()[self.current];
        match self.statuses[self.current] {
            StepStatus::Pending => EngineAction::Load {
                node_id: step.node_id.clone(),
                node_type: step.node_type.clone(),
            },
            StepStatus::Loaded => EngineAction::Instantiate { node_id: step.node_id.clone() },
            StepStatus::Instantiated => {
                let idx = match self.graph.node_index(&step.node_id) {
                    Some(i) => i,
                    None => {
                        proof {
                            let ord = kahn_order(self.graph_spec());
                            assert(self.graph_spec().nodes_seq()[ord[self.current_spec()] as int].id@
                                == step.node_id@);
                            assert(false);
                        }
                        return EngineAction::Halted;
                    },
                };
                proof {
                    let ord = kahn_order(self.graph_spec());
                    let v = ord[self.current_spec()];
                    assert(self.graph_spec().nodes_seq()[v as int].id@ == step.node_id@);
                    if idx != v {
                        assert(self.graph_spec().nodes_seq()[idx as int].id@
                            == self.graph_spec().nodes_seq()[v as int].id@);
                        assert(false);
                    }
                }
                let inputs = gather_inputs(&self.graph, &self.outputs, idx);
                EngineAction::Invoke { node_id: step.node_id.clone(), inputs }
            },
            StepStatus::Completed => {
                proof {
                    assert(false);
                }
                EngineAction::Halted
            },
            StepStatus::Failed => {
                proof {
                    assert(false);
                }
                EngineAction::Halted
            },
        }
    }

    /// Takes one transition: advances the current step on a completed
    /// outcome, records outputs on a completed invocation, and halts the
    /// run on any failure. Nothing else changes.
    pub fn apply(&mut self, event: EngineEvent)
        requires
            old(self).wf(),
            old(self).expects(event),
        ensures
            final(self).wf(),
            final(self).graph_spec() == old(self).graph_spec(),
            final(self).plan_spec() == old(self).plan_spec(),
            match event {
                EngineEvent::LoadCompleted => {
                    &&& final(self).statuses_seq() == old(self).statuses_seq().update(
                        old(self).current_spec(),
                        StepStatus::Loaded,
                    )
                    &&& final(self).current_spec() == old(self).current_spec()
                    &&& final(self).outputs_seq() == old(self).outputs_seq()
                    &&& final(self).error_spec() is None
                },
                EngineEvent::InstantiateCompleted => {
                    &&& final(self).statuses_seq() == old(self).statuses_seq().update(
                        old(self).current_spec(),
                        StepStatus::Instantiated,
                    )
                    &&& final(self).current_spec() == old(self).current_spec()
                    &&& final(self).outputs_seq() == old(self).outputs_seq()
                    &&& final(self).error_spec() is None
                },
                EngineEvent::InvokeCompleted(rec) => {
                    let id = old(self).plan_spec().steps_seq()[old(self).current_spec()].node_id@;
                    &&& final(self).statuses_seq() == old(self).statuses_seq().update(
                        old(self).current_spec(),
                        StepStatus::Completed,
                    )
                    &&& final(self).current_spec() == old(self).current_spec() + 1
                    &&& final(self).error_spec() is None
                    &&& assoc_lookup(final(self).outputs_seq(), id) == Some(rec)
                    &&& forall|key: Seq<char>|
                        key != id ==> assoc_lookup(final(self).outputs_seq(), key) == assoc_lookup(
                            old(self).outputs_seq(),
                            key,
                        )
                },
                EngineEvent::LoadFailed(e) => halted_to(*old(self), *final(self), e),
                EngineEvent::InstantiateFailed(e) => halted_to(*old(self), *final(self), e),
                EngineEvent::InvokeFailed(e) => halted_to(*old(self), *final(self), e),
            },
    {
        match event {
            EngineEvent::LoadCompleted => {
                self.statuses.set(self.current, StepStatus::Loaded);
            },
            EngineEvent::InstantiateCompleted => {
                self.statuses.set(self.current, StepStatus::Instantiated);
            },
            EngineEvent::InvokeCompleted(rec) => {
                let id = self.plan.steps()[self.current].node_id.clone();
                let ghost gid = id@;
                let ghost grec = rec;
                self.outputs.set(id, rec);
                self.statuses.set(self.current, StepStatus::Completed);
                self.current = self.current + 1;
                proof {
                    assert forall|i: int|
                        0 <= i < self.outputs_seq().len() implies (#[trigger] self.outputs_seq()[i]).1.wf() by {
                        if self.outputs_seq()[i].1 != grec {
                            assert(old(self).outputs_seq().contains(self.outputs_seq()[i]));
                            let j = choose|j: int|
                                0 <= j < old(self).outputs_seq().len() && old(self).outputs_seq()[j]
                                    == self.outputs_seq()[i];
                            assert(old(self).outputs_seq()[j].1.wf());
                        }
                    }
                    assert forall|k: int|
                        0 <= k < self.current_spec() implies assoc_lookup(
                        self.outputs_seq(),
                        (#[trigger] self.plan_spec().steps_seq()[k]).node_id@,
                    ) is Some by {
                        let key = self.plan_spec().steps_seq()[k].node_id@;
                        if key != gid {
                            assert(assoc_lookup(self.outputs_seq(), key) == assoc_lookup(
                                old(self).outputs_seq(),
                                key,
                            ));
                            assert(k < old(self).current_spec());
                        }
                    }
                    assert forall|key: Seq<char>|
                        assoc_lookup(self.outputs_seq(), key) is Some implies exists|k: int|
                        0 <= k < self.current_spec() && (
                        #[trigger] self.plan_spec().steps_seq()[k]).node_id@ == key by {
                        if key != gid {
                            assert(assoc_lookup(old(self).outputs_seq(), key) is Some);
                            let k = choose|k: int|
                                0 <= k < old(self).current_spec() && (
                                #[trigger] old(self).plan_spec().steps_seq()[k]).node_id@ == key;
                            assert(self.plan_spec().steps_seq()[k].node_id@ == key);
                        } else {
                            assert(self.plan_spec().steps_seq()[old(self).current_spec()].node_id@
                                == key);
                        }
                    }
                }
            },
            EngineEvent::LoadFailed(e) => {
                self.statuses.set(self.current, StepStatus::Failed);
                self.error = Some(e);
            },
            EngineEvent::InstantiateFailed(e) => {
                self.statuses.set(self.current, StepStatus::Failed);
                self.error = Some(e);
            },
            EngineEvent::InvokeFailed(e) => {
                self.statuses.set(self.current, StepStatus::Failed);
                self.error = Some(e);
            },
        }
    }

    /// The recorded outputs, keyed by node id.
    pub fn results(&self) -> (r: &RuntimeData)
        ensures
            r@ == self.outputs_seq(),
    {
        &self.outputs
    }

    /// The error that halted the run, if any.
    pub fn error(&self) -> (r: &Option<RuntimeError>)
        ensures
            *r == self.error_spec(),
    {
        &self.error
    }

    /// The index of the first step that has not completed.
    pub fn current_step(&self) -> (r: usize)
        ensures
            r == self.current_spec(),
    {
        self.current
    }

    /// The status of step `k`.
    pub fn step_status(&self, k: usize) -> (r: StepStatus)
        requires
            (k as int) < self.statuses_seq().len(),
        ensures
            r == self.statuses_seq()[k as int],
    {
        self.statuses[k]
    }
}

/// A failure halts the run for good. When the engine holds an error,
/// the failing step is the current one, every step after it is still
/// pending — it was never loaded, instantiated or invoked — the engine
/// accepts no further event, and the only correct next action is `Halted`.
pub proof fn lemma_failure_halts(e: ExecutionEngine)
    requires
        e.wf(),
        e.error_spec() is Some,
    ensures
        e.current_spec() < e.statuses_seq().len(),
        e.statuses_seq()[e.current_spec()] is Failed,
        forall|k: int|
            e.current_spec() < k < e.statuses_seq().len() ==> e.statuses_seq()[k] is Pending,
        forall|ev: EngineEvent| !e.expects(ev),
        forall|a: EngineAction| e.action_is_next(a) ==> a is Halted,
{
}

} // verus!
