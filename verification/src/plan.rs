//! The execution planner.
//!
//! [`ExecutionPlan::from_graph`] turns a graph into a dependency-respecting
//! order of execution steps: repeatedly, among the nodes whose predecessors
//! have all been placed, the one with the lexicographically least id is
//! placed next. Ties are thus broken by ascending node id, which makes the
//! plan a function of the graph alone — reproducible across runs.
//!
//! If at some round no node is ready, the remaining nodes all lie on or
//! behind a cycle: planning fails with [`CyclicGraphError`] naming the
//! unplaced node with the least id, and no partial plan is produced. The
//! proofs at the end of this module show that a complete plan exists exactly
//! for the acyclic graphs, that every complete plan respects the edges, and
//! that the planned order is unique.

use vstd::prelude::*;

use crate::graph::Graph;
use crate::order::{lemma_lex_connected, lemma_lex_transitive, lex_lt, str_lt};
use crate::value::Value;

verus! {

/// An immutable snapshot of one node invocation: the node's id, its type and
/// a copy of its declared initial state. The engine never mutates a step.
#[derive(Debug, Clone)]
#[verifier::ext_equal]
pub struct ExecutionStep {
    /// Id of the node this step runs.
    pub node_id: String,
    /// The node's type, naming the module that implements it.
    pub node_type: String,
    /// A copy of the node's declared initial state.
    pub node_state: Option<Value>,
}

/// The planner's error: the graph contains a cycle, so no dependency-
/// respecting order exists. Names the unplaced node with the least id.
#[derive(Debug, Clone, PartialEq)]
pub struct CyclicGraphError {
    /// A representative node left unplaced when planning got stuck.
    pub node_id: String,
}

/// A dependency-respecting sequence of execution steps.
#[derive(Debug, Clone)]
pub struct ExecutionPlan {
    steps: Vec<ExecutionStep>,
}

/// Node `i` may be placed next: it is not placed yet, and every edge into it
/// comes from a placed node.
pub open spec fn ready(g: Graph, placed: Seq<usize>, i: usize) -> bool {
    &&& (i as int) < g.nodes_seq().len()
    &&& !placed.contains(i)
    &&& forall|k: int|
        0 <= k < g.edges_seq().len() && (#[trigger] g.edges_seq()[k]).to == i ==> placed.contains(
            g.edges_seq()[k].from,
        )
}

/// Among indices `lo..`, the ready node with the lexicographically least id.
pub open spec fn min_ready_from(g: Graph, placed: Seq<usize>, lo: int) -> Option<usize>
    decreases g.nodes_seq().len() - lo,
{
    if lo < 0 || lo >= g.nodes_seq().len() {
        None
    } else {
        let rest = min_ready_from(g, placed, lo + 1);
        if !ready(g, placed, lo as usize) {
            rest
        } else {
            match rest {
                None => Some(lo as usize),
                Some(m) => if lex_lt(g.nodes_seq()[m as int].id@, g.nodes_seq()[lo].id@) {
                    Some(m)
                } else {
                    Some(lo as usize)
                },
            }
        }
    }
}

/// Among indices `lo..`, the unplaced node with the lexicographically least
/// id.
pub open spec fn min_unplaced_from(g: Graph, placed: Seq<usize>, lo: int) -> Option<usize>
    decreases g.nodes_seq().len() - lo,
{
    if lo < 0 || lo >= g.nodes_seq().len() {
        None
    } else {
        let rest = min_unplaced_from(g, placed, lo + 1);
        if placed.contains(lo as usize) {
            rest
        } else {
            match rest {
                None => Some(lo as usize),
                Some(m) => if lex_lt(g.nodes_seq()[m as int].id@, g.nodes_seq()[lo].id@) {
                    Some(m)
                } else {
                    Some(lo as usize)
                },
            }
        }
    }
}

/// The order after `s` rounds of placement: each round places the ready node
/// with the least id, or nothing if no node is ready.
pub open spec fn kahn_prefix(g: Graph, s: nat) -> Seq<usize>
    decreases s,
{
    if s == 0 {
        Seq::empty()
    } else {
        let prev = kahn_prefix(g, (s - 1) as nat);
        match min_ready_from(g, prev, 0) {
            None => prev,
            Some(m) => prev.push(m),
        }
    }
}

/// The order the planner produces: as many rounds as there are nodes.
pub open spec fn kahn_order(g: Graph) -> Seq<usize> {
    kahn_prefix(g, g.nodes_seq().len())
}

/// Planning covered every node.
pub open spec fn plan_complete(g: Graph) -> bool {
    kahn_order(g).len() == g.nodes_seq().len()
}

/// The node named by a failed plan: the unplaced node with the least id.
pub open spec fn min_unplaced(g: Graph) -> Option<usize> {
    min_unplaced_from(g, kahn_order(g), 0)
}

/// A cycle: a nonempty index sequence where each node has an edge to the
/// next, and the last has an edge back to the first.
pub open spec fn is_cycle(g: Graph, c: Seq<usize>) -> bool {
    &&& c.len() > 0
    &&& forall|k: int| 0 <= k < c.len() ==> (#[trigger] c[k] as int) < g.nodes_seq().len()
    &&& forall|k: int| 0 <= k < c.len() - 1 ==> g.is_edge(#[trigger] c[k] as int, c[k + 1] as int)
    &&& g.is_edge(c.last() as int, c[0] as int)
}

/// The graph contains at least one cycle.
pub open spec fn has_cycle(g: Graph) -> bool {
    exists|c: Seq<usize>| is_cycle(g, c)
}

/// Step `s` snapshots node `i` of the graph.
pub open spec fn step_matches(g: Graph, s: ExecutionStep, i: usize) -> bool {
    &&& (i as int) < g.nodes_seq().len()
    &&& s.node_id == g.nodes_seq()[i as int].id
    &&& s.node_type == g.nodes_seq()[i as int].data.node_type
    &&& s.node_state == g.nodes_seq()[i as int].data.state
}

impl ExecutionPlan {
    /// The steps, in execution order.
    pub closed spec fn steps_seq(self) -> Seq<ExecutionStep> {
        self.steps@
    }

    /// The plan's steps snapshot, in order, the nodes `ord` lists.
    pub open spec fn matches_order(self, g: Graph, ord: Seq<usize>) -> bool {
        &&& self.steps_seq().len() == ord.len()
        &&& forall|k: int|
            0 <= k < ord.len() ==> step_matches(g, #[trigger] self.steps_seq()[k], ord[k])
    }

    /// The empty plan.
    pub fn new() -> (r: ExecutionPlan)
        ensures
            r.steps_seq() =~= Seq::<ExecutionStep>::empty(),
    {
        ExecutionPlan { steps: Vec::new() }
    }

    /// The steps, for read-only iteration.
    pub fn steps(&self) -> (r: &Vec<ExecutionStep>)
        ensures
            r@ == self.steps_seq(),
    {
        &self.steps
    }

    /// Derives the plan of a graph. Succeeds with the steps of
    /// [`kahn_order`] exactly when that order covers every node; otherwise
    /// no ordering is produced and the error names the unplaced node with
    /// the least id.
    pub fn from_graph(graph: &Graph) -> (r: Result<ExecutionPlan, CyclicGraphError>)
        requires
            graph.wf(),
        ensures
            match r {
                Ok(p) => plan_complete(*graph) && p.matches_order(*graph, kahn_order(*graph)),
                Err(e) => !plan_complete(*graph) && (min_unplaced(*graph) matches Some(m)
                    && e.node_id == graph.nodes_seq()[m as int].id),
            },
    {
        let nodes = graph.nodes();
        let n = nodes.len();
        let mut placed: Vec<bool> = Vec::new();
        let mut i: usize = 0;
        while i < n
            invariant
                i <= n,
                placed@.len() == i,
                forall|j: int| 0 <= j < i ==> !placed@[j],
            decreases n - i,
        {
            placed.push(false);
            i = i + 1;
        }

        let mut order: Vec<usize> = Vec::new();
        let mut round: usize = 0;
        while round < n
            invariant
                round <= n,
                n == graph.nodes_seq().len(),
                nodes@ == graph.nodes_seq(),
                graph.wf(),
                order@.len() == round,
                order@ == kahn_prefix(*graph, round as nat),
                placed@.len() == n,
                forall|j: usize| (j as int) < n ==> placed@[j as int] == order@.contains(j),
            decreases n - round,
        {
            let cur = scan_min_ready(graph, &placed, Ghost(order@));
            match cur {
                Some(m) => {
                    proof {
                        lemma_min_ready_from_props(*graph, order@, 0);
                        assert(ready(*graph, order@, m));
                        lemma_push_contains(order@, m);
                        assert(kahn_prefix(*graph, (round + 1) as nat) == order@.push(m));
                    }
                    order.push(m);
                    placed.set(m, true);
                    round = round + 1;
                },
                None => {
                    proof {
                        lemma_kahn_stuck_at(*graph, round as nat, n as nat);
                        assert(kahn_order(*graph) == order@);
                        lemma_kahn_prefix_ok(*graph, round as nat);
                        lemma_min_unplaced_props(*graph, order@, 0);
                    }
                    let mu = scan_min_unplaced(graph, &placed, Ghost(order@));
                    match mu {
                        Some(m) => {
                            proof {
                                assert(min_unplaced(*graph) == Some(m));
                            }
                            return Err(CyclicGraphError { node_id: nodes[m].id.clone() });
                        },
                        None => {
                            proof {
                                lemma_some_node_unplaced(*graph, order@);
                                assert(false);
                            }
                            return Err(CyclicGraphError { node_id: String::new() });
                        },
                    }
                },
            }
        }

        let mut steps: Vec<ExecutionStep> = Vec::new();
        let mut k: usize = 0;
        proof {
            lemma_kahn_prefix_ok(*graph, n as nat);
        }
        while k < n
            invariant
                k <= n,
                n == graph.nodes_seq().len(),
                nodes@ == graph.nodes_seq(),
                order@.len() == n,
                forall|j: int| 0 <= j < n ==> (#[trigger] order@[j] as int) < n,
                steps@.len() == k,
                forall|j: int| 0 <= j < k ==> step_matches(*graph, #[trigger] steps@[j], order@[j]),
            decreases n - k,
        {
            let idx = order[k];
            let node = &nodes[idx];
            let state = match &node.data.state {
                Some(v) => Some(v.duplicate()),
                None => None,
            };
            steps.push(ExecutionStep {
                node_id: node.id.clone(),
                node_type: node.data.node_type.clone(),
                node_state: state,
            });
            k = k + 1;
        }
        Ok(ExecutionPlan { steps })
    }
}

impl Default for ExecutionPlan {
    /// The empty plan.
    fn default() -> (r: ExecutionPlan)
        ensures
            r.steps_seq() =~= Seq::<ExecutionStep>::empty(),
    {
        ExecutionPlan::new()
    }
}

/// Membership in a pushed sequence: the pushed element, or an earlier one.
proof fn lemma_push_contains(s: Seq<usize>, x: usize)
    ensures
        forall|y: usize| s.push(x).contains(y) <==> (s.contains(y) || y == x),
{
    assert forall|y: usize| s.push(x).contains(y) <==> (s.contains(y) || y == x) by {
        if s.contains(y) {
            let j = choose|j: int| 0 <= j < s.len() && s[j] == y;
            assert(s.push(x)[j] == y);
        }
        assert(s.push(x)[s.len() as int] == x);
        if s.push(x).contains(y) && y != x {
            let j = choose|j: int| 0 <= j < s.push(x).len() && s.push(x)[j] == y;
            assert(j < s.len());
            assert(s[j] == y);
        }
    }
}

/// What the minimum-scan yields: a ready node whose id is least among the
/// ready ones, or the fact that no node from `lo` on is ready.
proof fn lemma_min_ready_from_props(g: Graph, placed: Seq<usize>, lo: int)
    requires
        g.wf(),
        0 <= lo,
    ensures
        match min_ready_from(g, placed, lo) {
            Some(m) => lo <= m < g.nodes_seq().len() && ready(g, placed, m) && forall|j: usize|
                lo <= j < g.nodes_seq().len() && ready(g, placed, j) && j != m ==> lex_lt(
                    g.nodes_seq()[m as int].id@,
                    g.nodes_seq()[j as int].id@,
                ),
            None => forall|j: usize| lo <= j < g.nodes_seq().len() ==> !ready(g, placed, j),
        },
    decreases g.nodes_seq().len() - lo,
{
    let n = g.nodes_seq().len() as int;
    if 0 <= lo < n {
        lemma_min_ready_from_props(g, placed, lo + 1);
        let rest = min_ready_from(g, placed, lo + 1);
        if ready(g, placed, lo as usize) {
            match rest {
                None => {},
                Some(m) => {
                    let id_m = g.nodes_seq()[m as int].id@;
                    let id_lo = g.nodes_seq()[lo].id@;
                    assert(m != lo as usize);
                    assert(id_m != id_lo);
                    lemma_lex_connected(id_m, id_lo);
                    if lex_lt(id_m, id_lo) {
                        // keep m; m is below lo as well
                    } else {
                        // take lo: lo's id is below m's, hence below every ready j
                        assert(lex_lt(id_lo, id_m));
                        assert forall|j: usize|
                            lo <= j < n && ready(g, placed, j) && j != lo as usize implies lex_lt(
                            id_lo,
                            g.nodes_seq()[j as int].id@,
                        ) by {
                            if j != m {
                                lemma_lex_transitive(id_lo, id_m, g.nodes_seq()[j as int].id@);
                            }
                        }
                    }
                },
            }
        }
    }
}

/// Like [`lemma_min_ready_from_props`], for the unplaced-minimum scan: a
/// result is a valid unplaced index, and `None` means every node from `lo`
/// on is placed.
proof fn lemma_min_unplaced_props(g: Graph, placed: Seq<usize>, lo: int)
    requires
        g.wf(),
        0 <= lo,
    ensures
        match min_unplaced_from(g, placed, lo) {
            Some(m) => lo <= m < g.nodes_seq().len() && !placed.contains(m),
            None => forall|j: usize| lo <= j < g.nodes_seq().len() ==> placed.contains(j),
        },
    decreases g.nodes_seq().len() - lo,
{
    let n = g.nodes_seq().len() as int;
    if 0 <= lo < n {
        lemma_min_unplaced_props(g, placed, lo + 1);
    }
}

/// Once no node is ready, later rounds change nothing.
proof fn lemma_kahn_stuck_at(g: Graph, r: nat, s: nat)
    requires
        r <= s,
        min_ready_from(g, kahn_prefix(g, r), 0) is None,
    ensures
        kahn_prefix(g, s) == kahn_prefix(g, r),
    decreases s,
{
    if s > r {
        lemma_kahn_stuck_at(g, r, (s - 1) as nat);
    }
}

/// Every placement order is made of distinct valid indices and respects the
/// edges: a node is placed only after all of its predecessors.
pub open spec fn distinct_valid(g: Graph, ord: Seq<usize>) -> bool {
    &&& ord.no_duplicates()
    &&& forall|k: int| 0 <= k < ord.len() ==> (#[trigger] ord[k] as int) < g.nodes_seq().len()
}

/// Every edge into a placed node comes from a node placed strictly earlier.
pub open spec fn topo_ok(g: Graph, ord: Seq<usize>) -> bool {
    forall|k: int, e: int|
        #![trigger ord[k], g.edges_seq()[e]]
        0 <= k < ord.len() && 0 <= e < g.edges_seq().len() && g.edges_seq()[e].to == ord[k]
            ==> exists|j: int| 0 <= j < k && ord[j] == g.edges_seq()[e].from
}

/// The order after any number of rounds is distinct, valid and respects the
/// edges.
proof fn lemma_kahn_prefix_ok(g: Graph, s: nat)
    requires
        g.wf(),
    ensures
        distinct_valid(g, kahn_prefix(g, s)),
        topo_ok(g, kahn_prefix(g, s)),
    decreases s,
{
    if s > 0 {
        lemma_kahn_prefix_ok(g, (s - 1) as nat);
        let prev = kahn_prefix(g, (s - 1) as nat);
        lemma_min_ready_from_props(g, prev, 0);
        match min_ready_from(g, prev, 0) {
            None => {},
            Some(m) => {
                let ord = prev.push(m);
                assert(ready(g, prev, m));
                assert forall|k: int, e: int|
                    #![trigger ord[k], g.edges_seq()[e]]
                    0 <= k < ord.len() && 0 <= e < g.edges_seq().len() && g.edges_seq()[e].to
                        == ord[k] implies exists|j: int|
                    0 <= j < k && ord[j] == g.edges_seq()[e].from by {
                    if k < prev.len() {
                        assert(prev[k] == ord[k]);
                        let j = choose|j: int| 0 <= j < k && prev[j] == g.edges_seq()[e].from;
                        assert(ord[j] == g.edges_seq()[e].from);
                    } else {
                        assert(ord[k] == m);
                        assert(prev.contains(g.edges_seq()[e].from));
                        let j = choose|j: int|
                            0 <= j < prev.len() && prev[j] == g.edges_seq()[e].from;
                        assert(ord[j] == g.edges_seq()[e].from);
                    }
                }
            },
        }
    }
}

/// A sequence of distinct valid indices that is shorter than the node count
/// misses some node.
proof fn lemma_some_node_unplaced(g: Graph, ord: Seq<usize>)
    requires
        g.wf(),
        distinct_valid(g, ord),
        ord.len() < g.nodes_seq().len(),
    ensures
        exists|j: usize| (j as int) < g.nodes_seq().len() && !ord.contains(j),
{
    let n = g.nodes_seq().len() as int;
    if forall|j: usize| (j as int) < n ==> ord.contains(j) {
        let ints = ord.map_values(|x: usize| x as int);
        assert(ints.no_duplicates()) by {
            assert(forall|i: int, j: int|
                0 <= i < j < ord.len() ==> ord[i] != ord[j] && #[trigger] ints[i]
                    != #[trigger] ints[j]);
        }
        ints.unique_seq_to_set();
        vstd::set_lib::lemma_int_range(0, n);
        assert(vstd::set_lib::set_int_range(0, n).subset_of(ints.to_set())) by {
            assert forall|x: int|
                vstd::set_lib::set_int_range(0, n).contains(x) implies ints.to_set().contains(
                x,
            ) by {
                assert(ord.contains(x as usize));
                let j = choose|j: int| 0 <= j < ord.len() && ord[j] == x as usize;
                assert(ord[j] as int == x);
                assert(ints[j] == x);
                assert(ints.contains(x));
            }
        }
        vstd::set_lib::lemma_len_subset(vstd::set_lib::set_int_range(0, n), ints.to_set());
    }
}

/// Scans for the ready node with the least id, matching
/// [`min_ready_from`] from the top down.
fn scan_min_ready(g: &Graph, placed: &Vec<bool>, Ghost(ord): Ghost<Seq<usize>>) -> (r: Option<
    usize,
>)
    requires
        g.wf(),
        placed@.len() == g.nodes_seq().len(),
        forall|j: usize| (j as int) < g.nodes_seq().len() ==> placed@[j as int] == ord.contains(j),
    ensures
        r == min_ready_from(*g, ord, 0),
{
    let nodes = g.nodes();
    let n = nodes.len();
    let mut cur: Option<usize> = None;
    let mut i: usize = n;
    while i > 0
        invariant
            i <= n,
            n == g.nodes_seq().len(),
            nodes@ == g.nodes_seq(),
            g.wf(),
            placed@.len() == n,
            forall|j: usize| (j as int) < n ==> placed@[j as int] == ord.contains(j),
            cur == min_ready_from(*g, ord, i as int),
        decreases i,
    {
        i = i - 1;
        let is_r = check_ready(g, placed, i, Ghost(ord));
        if is_r {
            proof {
                lemma_min_ready_from_props(*g, ord, i as int + 1);
            }
            cur = match cur {
                None => Some(i),
                Some(m) => {
                    if str_lt(&nodes[m].id, &nodes[i].id) {
                        Some(m)
                    } else {
                        Some(i)
                    }
                },
            };
        }
    }
    cur
}

/// Scans for the unplaced node with the least id, matching
/// [`min_unplaced_from`] from the top down.
fn scan_min_unplaced(g: &Graph, placed: &Vec<bool>, Ghost(ord): Ghost<Seq<usize>>) -> (r: Option<
    usize,
>)
    requires
        g.wf(),
        placed@.len() == g.nodes_seq().len(),
        forall|j: usize| (j as int) < g.nodes_seq().len() ==> placed@[j as int] == ord.contains(j),
    ensures
        r == min_unplaced_from(*g, ord, 0),
{
    let nodes = g.nodes();
    let n = nodes.len();
    let mut cur: Option<usize> = None;
    let mut i: usize = n;
    while i > 0
        invariant
            i <= n,
            n == g.nodes_seq().len(),
            nodes@ == g.nodes_seq(),
            g.wf(),
            placed@.len() == n,
            forall|j: usize| (j as int) < n ==> placed@[j as int] == ord.contains(j),
            cur == min_unplaced_from(*g, ord, i as int),
        decreases i,
    {
        i = i - 1;
        if !placed[i] {
            proof {
                lemma_min_unplaced_props(*g, ord, i as int + 1);
            }
            cur = match cur {
                None => Some(i),
                Some(m) => {
                    if str_lt(&nodes[m].id, &nodes[i].id) {
                        Some(m)
                    } else {
                        Some(i)
                    }
                },
            };
        }
    }
    cur
}

/// After `s` rounds either every round has placed a node, or the planner is
/// stuck.
proof fn lemma_kahn_prefix_len(g: Graph, s: nat)
    ensures
        kahn_prefix(g, s).len() <= s,
        kahn_prefix(g, s).len() < s ==> min_ready_from(g, kahn_prefix(g, s), 0) is None,
    decreases s,
{
    if s > 0 {
        lemma_kahn_prefix_len(g, (s - 1) as nat);
    }
}

/// A complete plan covers every node.
proof fn lemma_complete_covers(g: Graph, x: usize)
    requires
        g.wf(),
        plan_complete(g),
        (x as int) < g.nodes_seq().len(),
    ensures
        kahn_order(g).contains(x),
{
    let n = g.nodes_seq().len() as int;
    let ord = kahn_order(g);
    lemma_kahn_prefix_ok(g, g.nodes_seq().len());
    if !ord.contains(x) {
        let ints = ord.map_values(|y: usize| y as int);
        assert(ints.no_duplicates()) by {
            assert(forall|i: int, j: int|
                0 <= i < j < ord.len() ==> ord[i] != ord[j] && #[trigger] ints[i]
                    != #[trigger] ints[j]);
        }
        ints.unique_seq_to_set();
        vstd::set_lib::lemma_int_range(0, n);
        let small = vstd::set_lib::set_int_range(0, n).remove(x as int);
        assert(ints.to_set().subset_of(small)) by {
            assert forall|y: int| ints.to_set().contains(y) implies small.contains(y) by {
                let j = choose|j: int| 0 <= j < ints.len() && ints[j] == y;
                assert(ord[j] as int == y);
                assert(ord[j] != x);
            }
        }
        vstd::set_lib::lemma_len_subset(ints.to_set(), small);
        assert(vstd::set_lib::set_int_range(0, n).contains(x as int));
        assert(small.len() == n - 1);
    }
}

/// No node that lies on a cycle is ever placed, at any position.
proof fn lemma_cycle_unplaced(g: Graph, c: Seq<usize>, p: int)
    requires
        g.wf(),
        is_cycle(g, c),
        0 <= p < kahn_order(g).len(),
    ensures
        forall|k: int| 0 <= k < c.len() ==> kahn_order(g)[p] != c[k],
    decreases p,
{
    let ord = kahn_order(g);
    lemma_kahn_prefix_ok(g, g.nodes_seq().len());
    assert forall|k: int| 0 <= k < c.len() implies ord[p] != c[k] by {
        if ord[p] == c[k] {
            let kprev: int = if k == 0 {
                c.len() - 1
            } else {
                k - 1
            };
            assert(g.is_edge(c[kprev] as int, c[k] as int));
            let e = choose|e: int|
                0 <= e < g.edges_seq().len() && (#[trigger] g.edges_seq()[e]).from
                    == c[kprev] as int && g.edges_seq()[e].to == c[k] as int;
            assert(g.edges_seq()[e].to == ord[p]);
            let j = choose|j: int| 0 <= j < p && ord[j] == g.edges_seq()[e].from;
            lemma_cycle_unplaced(g, c, j);
            assert(ord[j] != c[kprev]);
            assert(false);
        }
    }
}

/// A graph that contains a cycle has no complete plan, so planning it
/// fails and yields no ordering.
pub proof fn lemma_cycle_no_plan(g: Graph)
    requires
        g.wf(),
        has_cycle(g),
    ensures
        !plan_complete(g),
{
    let c = choose|c: Seq<usize>| is_cycle(g, c);
    if plan_complete(g) {
        lemma_complete_covers(g, c[0]);
        let ord = kahn_order(g);
        let p = choose|p: int| 0 <= p < ord.len() && ord[p] == c[0];
        lemma_cycle_unplaced(g, c, p);
        assert(ord[p] != c[0]);
        assert(false);
    }
}

/// In a complete plan, the source of every edge is placed strictly
/// before its destination.
pub proof fn lemma_plan_topological(g: Graph, e: int, pu: int, pv: int)
    requires
        g.wf(),
        plan_complete(g),
        0 <= e < g.edges_seq().len(),
        0 <= pu < kahn_order(g).len(),
        0 <= pv < kahn_order(g).len(),
        kahn_order(g)[pu] == g.edges_seq()[e].from,
        kahn_order(g)[pv] == g.edges_seq()[e].to,
    ensures
        pu < pv,
{
    let ord = kahn_order(g);
    lemma_kahn_prefix_ok(g, g.nodes_seq().len());
    assert(g.edges_seq()[e].to == ord[pv]);
    let j = choose|j: int| 0 <= j < pv && ord[j] == g.edges_seq()[e].from;
    if j != pu {
        assert(ord[j] == ord[pu]);
        assert(false);
    }
}

/// From a stuck state, a walk of any length can be built backwards through
/// unplaced predecessors: each walk node has an edge to the one before it.
proof fn build_unplaced_walk(g: Graph, placed: Seq<usize>, start: usize, steps: nat) -> (w: Seq<
    usize,
>)
    requires
        g.wf(),
        forall|j: usize| (j as int) < g.nodes_seq().len() ==> !ready(g, placed, j),
        (start as int) < g.nodes_seq().len(),
        !placed.contains(start),
    ensures
        w.len() == steps + 1,
        w[0] == start,
        forall|k: int|
            0 <= k < w.len() ==> ((#[trigger] w[k]) as int) < g.nodes_seq().len()
                && !placed.contains(w[k]),
        forall|k: int| 0 <= k < w.len() - 1 ==> g.is_edge(#[trigger] w[k + 1] as int, w[k] as int),
    decreases steps,
{
    if steps == 0 {
        seq![start]
    } else {
        let w0 = build_unplaced_walk(g, placed, start, (steps - 1) as nat);
        let last = w0.last();
        assert(!ready(g, placed, last));
        assert(exists|e: int|
            0 <= e < g.edges_seq().len() && (#[trigger] g.edges_seq()[e]).to == last
                && !placed.contains(g.edges_seq()[e].from)) by {
            if forall|e: int|
                0 <= e < g.edges_seq().len() && (#[trigger] g.edges_seq()[e]).to == last
                    ==> placed.contains(g.edges_seq()[e].from) {
                assert(ready(g, placed, last));
            }
        }
        let e = choose|e: int|
            0 <= e < g.edges_seq().len() && (#[trigger] g.edges_seq()[e]).to == last
                && !placed.contains(g.edges_seq()[e].from);
        let w = w0.push(g.edges_seq()[e].from);
        assert(forall|k: int| 0 <= k < w0.len() ==> #[trigger] w[k] == w0[k]);
        assert(w[w0.len() as int] == g.edges_seq()[e].from);
        assert(g.is_edge(g.edges_seq()[e].from as int, last as int));
        w
    }
}

/// An acyclic graph always has a complete plan — planning never fails
/// on it.
pub proof fn lemma_acyclic_plan_complete(g: Graph)
    requires
        g.wf(),
        !has_cycle(g),
    ensures
        plan_complete(g),
{
    if !plan_complete(g) {
        let n = g.nodes_seq().len();
        let ord = kahn_order(g);
        lemma_kahn_prefix_ok(g, n);
        lemma_kahn_prefix_len(g, n);
        lemma_min_ready_from_props(g, ord, 0);
        lemma_some_node_unplaced(g, ord);
        let start = choose|j: usize| (j as int) < g.nodes_seq().len() && !ord.contains(j);
        let w = build_unplaced_walk(g, ord, start, n);
        assert(exists|a: int, b: int| 0 <= a < b < w.len() && w[a] == w[b]) by {
            if w.no_duplicates() {
                let ints = w.map_values(|y: usize| y as int);
                assert(ints.no_duplicates()) by {
                    assert(forall|i: int, j: int|
                        0 <= i < j < w.len() ==> w[i] != w[j] && #[trigger] ints[i]
                            != #[trigger] ints[j]);
                }
                ints.unique_seq_to_set();
                vstd::set_lib::lemma_int_range(0, n as int);
                assert(ints.to_set().subset_of(vstd::set_lib::set_int_range(0, n as int))) by {
                    assert forall|y: int|
                        ints.to_set().contains(y) implies vstd::set_lib::set_int_range(
                        0,
                        n as int,
                    ).contains(y) by {
                        let j = choose|j: int| 0 <= j < ints.len() && ints[j] == y;
                        assert(w[j] as int == y);
                    }
                }
                vstd::set_lib::lemma_len_subset(
                    ints.to_set(),
                    vstd::set_lib::set_int_range(0, n as int),
                );
                assert(false);
            }
        }
        let (a, b) = choose|a: int, b: int| 0 <= a < b < w.len() && w[a] == w[b];
        let c = Seq::new((b - a) as nat, |k: int| w[b - k]);
        assert(is_cycle(g, c)) by {
            assert(c.len() > 0);
            assert(forall|k: int| 0 <= k < c.len() ==> #[trigger] c[k] == w[b - k]);
            assert forall|k: int| 0 <= k < c.len() - 1 implies g.is_edge(
                #[trigger] c[k] as int,
                c[k + 1] as int,
            ) by {
                assert(c[k] == w[b - k]);
                assert(c[k + 1] == w[b - k - 1]);
                assert(g.is_edge(w[(b - k - 1) + 1] as int, w[b - k - 1] as int));
            }
            assert(c.last() == w[a + 1]);
            assert(c[0] == w[b]);
            assert(g.is_edge(w[a + 1] as int, w[a] as int));
            assert(w[a] == w[b]);
        }
        assert(has_cycle(g));
        assert(false);
    }
}

/// Planning is deterministic — two plans that both match the planned
/// order of the same graph carry identical steps.
pub proof fn lemma_plan_deterministic(g: Graph, first: ExecutionPlan, second: ExecutionPlan)
    requires
        first.matches_order(g, kahn_order(g)),
        second.matches_order(g, kahn_order(g)),
    ensures
        first.steps_seq() == second.steps_seq(),
{
    let ord = kahn_order(g);
    assert forall|k: int|
        0 <= k < ord.len() implies first.steps_seq()[k] == second.steps_seq()[k] by {
        let sa = first.steps_seq()[k];
        let sb = second.steps_seq()[k];
        assert(step_matches(g, sa, ord[k]));
        assert(step_matches(g, sb, ord[k]));
        assert(sa =~= sb);
    }
    assert(first.steps_seq() =~= second.steps_seq());
}

/// Decides [`ready`] for one node.
fn check_ready(g: &Graph, placed: &Vec<bool>, i: usize, Ghost(ord): Ghost<Seq<usize>>) -> (b:
    bool)
    requires
        g.wf(),
        (i as int) < g.nodes_seq().len(),
        placed@.len() == g.nodes_seq().len(),
        forall|j: usize| (j as int) < g.nodes_seq().len() ==> placed@[j as int] == ord.contains(j),
    ensures
        b == ready(*g, ord, i),
{
    if placed[i] {
        return false;
    }
    let edges = g.edges();
    let m = edges.len();
    let mut k: usize = 0;
    while k < m
        invariant
            k <= m,
            m == g.edges_seq().len(),
            edges@ == g.edges_seq(),
            g.wf(),
            (i as int) < g.nodes_seq().len(),
            placed@.len() == g.nodes_seq().len(),
            forall|j: usize|
                (j as int) < g.nodes_seq().len() ==> placed@[j as int] == ord.contains(j),
            !ord.contains(i),
            forall|j: int|
                0 <= j < k && (#[trigger] g.edges_seq()[j]).to == i ==> ord.contains(
                    g.edges_seq()[j].from,
                ),
        decreases m - k,
    {
        if edges[k].to == i && !placed[edges[k].from] {
            return false;
        }
        k = k + 1;
    }
    true
}

} // verus!
