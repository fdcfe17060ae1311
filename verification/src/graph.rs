//! The validated computation graph.
//!
//! A [`Graph`] is built once from a [`GraphConfig`] snapshot and is immutable
//! afterwards. Building keeps one node per configured node, in configuration
//! order, and resolves every configured edge to node indices. An edge whose
//! endpoint names no configured node makes construction fail with
//! [`GraphError::NodeNotFoundError`] naming the first missing id, source
//! endpoint before destination. Cycles are not rejected here: that is the
//! planner's job.

use vstd::prelude::*;

use crate::assoc::lemma_assoc_lookup_none;
use crate::config::{clone_opt_string, EdgeData, GraphConfig, NodeData};

verus! {

/// The direction in which adjacency is read: along the edges or against them.
#[derive(Clone, Copy, PartialEq, Eq, Structural, Debug)]
pub enum Direction {
    Incoming,
    Outgoing,
}

/// Why a graph could not be built.
#[derive(Debug, Clone, PartialEq)]
pub enum GraphError {
    /// An edge references a node id that no node carries.
    NodeNotFoundError(String),
    /// Any other structural violation.
    GraphStructureError(String),
}

/// One node of the graph: its id and its configured data.
#[derive(Debug, Clone)]
pub struct Node {
    /// The unique node id.
    pub id: String,
    /// The node's type and initial state.
    pub data: NodeData,
}

impl Node {
    /// Packs an id and its data into a node.
    pub fn new(id: String, data: NodeData) -> (r: Node)
        ensures
            r.id == id,
            r.data == data,
    {
        Node { id, data }
    }

    /// The node's configured data.
    pub fn data(&self) -> (r: &NodeData)
        ensures
            r == &self.data,
    {
        &self.data
    }
}

/// The port pair an edge connects; an absent name denotes the node's sole
/// unnamed port.
#[derive(Debug, Clone, PartialEq)]
pub struct Edge {
    /// Port on the source node.
    pub from_port: Option<String>,
    /// Port on the destination node.
    pub to_port: Option<String>,
}

impl Edge {
    /// Packs two optional port names into an edge label.
    pub fn new(from_port: Option<String>, to_port: Option<String>) -> (r: Edge)
        ensures
            r.from_port == from_port,
            r.to_port == to_port,
    {
        Edge { from_port, to_port }
    }

    /// An exact copy of the edge label.
    pub fn duplicate(&self) -> (r: Edge)
        ensures
            r == *self,
    {
        Edge {
            from_port: clone_opt_string(&self.from_port),
            to_port: clone_opt_string(&self.to_port),
        }
    }
}

/// A resolved edge: node indices plus the port pair.
#[derive(Debug, Clone)]
pub struct GraphEdge {
    /// Index of the source node.
    pub from: usize,
    /// Index of the destination node.
    pub to: usize,
    /// The ports the edge connects.
    pub ports: Edge,
}

/// A validated graph: nodes and resolved edges.
#[derive(Debug, Clone)]
pub struct Graph {
    nodes: Vec<Node>,
    edges: Vec<GraphEdge>,
}

/// The first edge endpoint, scanning edges in order and `from` before `to`,
/// that names no configured node.
pub open spec fn first_missing_from(c: GraphConfig, j: int) -> Option<Seq<char>>
    decreases c.edges_seq().len() - j,
{
    if j < 0 || j >= c.edges_seq().len() {
        None
    } else if !c.has_node(c.edges_seq()[j].from@) {
        Some(c.edges_seq()[j].from@)
    } else if !c.has_node(c.edges_seq()[j].to@) {
        Some(c.edges_seq()[j].to@)
    } else {
        first_missing_from(c, j + 1)
    }
}

/// The first missing endpoint of the whole configuration, if any.
pub open spec fn first_missing(c: GraphConfig) -> Option<Seq<char>> {
    first_missing_from(c, 0)
}

/// If no edge before `k` has a missing endpoint, the scan for one may as well
/// start at `k`.
proof fn lemma_first_missing_skip(c: GraphConfig, j: int, k: int)
    requires
        0 <= j <= k,
        forall|m: int|
            j <= m < k && m < c.edges_seq().len() ==> c.has_node(#[trigger] c.edges_seq()[m].from@)
                && c.has_node(c.edges_seq()[m].to@),
    ensures
        first_missing_from(c, j) == first_missing_from(c, k),
    decreases k - j,
{
    if j < k {
        lemma_first_missing_skip(c, j + 1, k);
    }
}

impl Graph {
    /// The nodes, in configuration order.
    pub closed spec fn nodes_seq(self) -> Seq<Node> {
        self.nodes@
    }

    /// The resolved edges, in configuration order.
    pub closed spec fn edges_seq(self) -> Seq<GraphEdge> {
        self.edges@
    }

    /// Node ids are unique, every edge endpoint is a valid node index, and
    /// both sequences are small enough to index with a machine word.
    pub open spec fn wf(self) -> bool {
        &&& (forall|i: int, j: int|
            0 <= i < j < self.nodes_seq().len() ==> self.nodes_seq()[i].id@
                != self.nodes_seq()[j].id@)
        &&& (forall|k: int|
            0 <= k < self.edges_seq().len() ==> (#[trigger] self.edges_seq()[k]).from
                < self.nodes_seq().len() && self.edges_seq()[k].to < self.nodes_seq().len())
        &&& self.nodes_seq().len() <= usize::MAX
        &&& self.edges_seq().len() <= usize::MAX
    }

    /// There is an edge from node index `u` to node index `v`.
    pub open spec fn is_edge(self, u: int, v: int) -> bool {
        exists|k: int|
            0 <= k < self.edges_seq().len() && (#[trigger] self.edges_seq()[k]).from == u
                && self.edges_seq()[k].to == v
    }

    /// The graph's nodes correspond one to one, in order, to the
    /// configuration's node table.
    pub open spec fn nodes_correspond(self, c: GraphConfig) -> bool {
        &&& self.nodes_seq().len() == c.nodes_seq().len()
        &&& (forall|i: int|
            0 <= i < c.nodes_seq().len() ==> (#[trigger] self.nodes_seq()[i]).id
                == c.nodes_seq()[i].0 && self.nodes_seq()[i].data == c.nodes_seq()[i].1)
    }

    /// Resolved edge `k` carries the same ports as configured edge `k` and
    /// points at the nodes the configured edge names.
    pub open spec fn edge_corresponds(self, c: GraphConfig, k: int) -> bool {
        let ge = self.edges_seq()[k];
        let ce = c.edges_seq()[k];
        &&& ge.from < self.nodes_seq().len()
        &&& ge.to < self.nodes_seq().len()
        &&& self.nodes_seq()[ge.from as int].id@ == ce.from@
        &&& self.nodes_seq()[ge.to as int].id@ == ce.to@
        &&& ge.ports.from_port == ce.from_port
        &&& ge.ports.to_port == ce.to_port
    }

    /// The graph is exactly the configuration, with edges resolved.
    pub open spec fn corresponds(self, c: GraphConfig) -> bool {
        &&& self.nodes_correspond(c)
        &&& self.edges_seq().len() == c.edges_seq().len()
        &&& (forall|k: int| 0 <= k < c.edges_seq().len() ==> self.edge_corresponds(c, k))
    }

    /// Builds the graph from a configuration: succeeds exactly when every
    /// edge endpoint names a configured node, and otherwise reports the first
    /// missing id.
    pub fn new(config: &GraphConfig) -> (r: Result<Graph, GraphError>)
        requires
            config.wf(),
        ensures
            match r {
                Ok(g) => g.wf() && g.corresponds(*config) && first_missing(*config) is None,
                Err(e) => {
                    &&& e matches GraphError::NodeNotFoundError(id) && first_missing(*config)
                        == Some(id@)
                },
            },
    {
        let cfg_nodes = config.nodes();
        let n = cfg_nodes.len();
        let mut nodes: Vec<Node> = Vec::new();
        let mut i: usize = 0;
        while i < n
            invariant
                i <= n,
                n == config.nodes_seq().len(),
                cfg_nodes@ == config.nodes_seq(),
                nodes@.len() == i,
                forall|j: int|
                    0 <= j < i ==> (#[trigger] nodes@[j]).id == config.nodes_seq()[j].0
                        && nodes@[j].data == config.nodes_seq()[j].1,
            decreases n - i,
        {
            nodes.push(Node { id: cfg_nodes[i].0.clone(), data: cfg_nodes[i].1.duplicate() });
            i = i + 1;
        }

        let cfg_edges = config.edges();
        let m = cfg_edges.len();
        let mut edges: Vec<GraphEdge> = Vec::new();
        let mut k: usize = 0;
        while k < m
            invariant
                k <= m,
                m == config.edges_seq().len(),
                cfg_edges@ == config.edges_seq(),
                config.wf(),
                n == config.nodes_seq().len(),
                nodes@.len() == n,
                forall|j: int|
                    0 <= j < n ==> (#[trigger] nodes@[j]).id == config.nodes_seq()[j].0
                        && nodes@[j].data == config.nodes_seq()[j].1,
                edges@.len() == k,
                forall|j: int|
                    0 <= j < k ==> config.has_node(
                        (#[trigger] config.edges_seq()[j]).from@,
                    ) && config.has_node(config.edges_seq()[j].to@),
                forall|j: int|
                    0 <= j < k ==> {
                        let ge = #[trigger] edges@[j];
                        let ce = config.edges_seq()[j];
                        &&& ge.from < n
                        &&& ge.to < n
                        &&& nodes@[ge.from as int].id@ == ce.from@
                        &&& nodes@[ge.to as int].id@ == ce.to@
                        &&& ge.ports.from_port == ce.from_port
                        &&& ge.ports.to_port == ce.to_port
                    },
            decreases m - k,
        {
            let from_idx = match find_node(&nodes, &cfg_edges[k].from) {
                Some(fi) => fi,
                None => {
                    proof {
                        lemma_ids_lookup(nodes@, *config, cfg_edges@[k as int].from@);
                        lemma_first_missing_skip(*config, 0, k as int);
                    }
                    return Err(GraphError::NodeNotFoundError(cfg_edges[k].from.clone()));
                },
            };
            let to_idx = match find_node(&nodes, &cfg_edges[k].to) {
                Some(ti) => ti,
                None => {
                    proof {
                        lemma_ids_lookup(nodes@, *config, cfg_edges@[k as int].from@);
                        lemma_ids_lookup(nodes@, *config, cfg_edges@[k as int].to@);
                        lemma_first_missing_skip(*config, 0, k as int);
                    }
                    return Err(GraphError::NodeNotFoundError(cfg_edges[k].to.clone()));
                },
            };
            proof {
                lemma_ids_lookup(nodes@, *config, cfg_edges@[k as int].from@);
                lemma_ids_lookup(nodes@, *config, cfg_edges@[k as int].to@);
            }
            edges.push(GraphEdge {
                from: from_idx,
                to: to_idx,
                ports: Edge {
                    from_port: clone_opt_string(&cfg_edges[k].from_port),
                    to_port: clone_opt_string(&cfg_edges[k].to_port),
                },
            });
            k = k + 1;
        }
        proof {
            lemma_first_missing_skip(*config, 0, m as int);
        }
        Ok(Graph { nodes, edges })
    }

    /// The nodes, for read-only iteration.
    pub fn nodes(&self) -> (r: &Vec<Node>)
        ensures
            r@ == self.nodes_seq(),
    {
        &self.nodes
    }

    /// The resolved edges, for read-only iteration.
    pub fn edges(&self) -> (r: &Vec<GraphEdge>)
        ensures
            r@ == self.edges_seq(),
    {
        &self.edges
    }

    /// The internal index of the node with the given id, if any.
    pub fn node_index(&self, id: &String) -> (r: Option<usize>)
        ensures
            match r {
                Some(i) => 0 <= i < self.nodes_seq().len() && self.nodes_seq()[i as int].id@
                    == id@,
                None => forall|j: int|
                    0 <= j < self.nodes_seq().len() ==> (#[trigger] self.nodes_seq()[j]).id@
                        != id@,
            },
    {
        find_node(&self.nodes, id)
    }

    /// The adjacency of node `v`: for each edge touching `v` in the given
    /// direction, in edge order, the index of the node at the other end and
    /// the edge's ports.
    pub fn neighbors(&self, v: usize, direction: Direction) -> (r: Vec<(usize, Edge)>)
        requires
            v < self.nodes_seq().len(),
        ensures
            r@ == neighbors_upto(*self, v as int, direction, self.edges_seq().len() as int),
    {
        let m = self.edges.len();
        let mut out: Vec<(usize, Edge)> = Vec::new();
        let mut k: usize = 0;
        while k < m
            invariant
                k <= m,
                m == self.edges_seq().len(),
                out@ == neighbors_upto(*self, v as int, direction, k as int),
            decreases m - k,
        {
            let e = &self.edges[k];
            match direction {
                Direction::Outgoing => {
                    if e.from == v {
                        out.push((e.to, e.ports.duplicate()));
                    }
                },
                Direction::Incoming => {
                    if e.to == v {
                        out.push((e.from, e.ports.duplicate()));
                    }
                },
            }
            k = k + 1;
        }
        out
    }
}

/// The adjacency of node `v` restricted to the first `j` edges.
pub open spec fn neighbors_upto(g: Graph, v: int, direction: Direction, j: int) -> Seq<
    (usize, Edge),
>
    decreases j,
{
    if j <= 0 {
        Seq::empty()
    } else {
        let prev = neighbors_upto(g, v, direction, j - 1);
        let e = g.edges_seq()[j - 1];
        if direction is Outgoing && e.from == v {
            prev.push((e.to, e.ports))
        } else if direction is Incoming && e.to == v {
            prev.push((e.from, e.ports))
        } else {
            prev
        }
    }
}

/// Finds the index of the node carrying `id`.
fn find_node(nodes: &Vec<Node>, id: &String) -> (r: Option<usize>)
    ensures
        match r {
            Some(i) => 0 <= i < nodes@.len() && nodes@[i as int].id@ == id@,
            None => forall|j: int| 0 <= j < nodes@.len() ==> (#[trigger] nodes@[j]).id@ != id@,
        },
{
    let n = nodes.len();
    let mut i: usize = 0;
    while i < n
        invariant
            i <= n,
            n == nodes@.len(),
            forall|j: int| 0 <= j < i ==> (#[trigger] nodes@[j]).id@ != id@,
        decreases n - i,
    {
        if nodes[i].id.eq(id) {
            return Some(i);
        }
        i = i + 1;
    }
    None
}

/// When the built nodes mirror the configuration's node table, an id is
/// carried by some built node exactly when the table holds it.
proof fn lemma_ids_lookup(nodes: Seq<Node>, c: GraphConfig, id: Seq<char>)
    requires
        nodes.len() == c.nodes_seq().len(),
        forall|j: int|
            0 <= j < nodes.len() ==> (#[trigger] nodes[j]).id == c.nodes_seq()[j].0,
    ensures
        c.has_node(id) <==> exists|j: int| 0 <= j < nodes.len() && (#[trigger] nodes[j]).id@ == id,
{
    lemma_assoc_lookup_none(c.nodes_seq(), id);
    if c.has_node(id) {
        assert(exists|j: int|
            0 <= j < c.nodes_seq().len() && (#[trigger] c.nodes_seq()[j]).0@ == id);
        let j = choose|j: int|
            0 <= j < c.nodes_seq().len() && (#[trigger] c.nodes_seq()[j]).0@ == id;
        assert(nodes[j].id@ == id);
    }
}

} // verus!
