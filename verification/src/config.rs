//! In-memory description of a computation graph.
//!
//! A configuration names the node implementations (one per node type), the
//! nodes themselves and the edges between them. It is the already-validated
//! value an external loader hands to [`crate::graph::Graph::new`]; reading
//! and parsing a configuration file is the loader's business, not this
//! library's.
//!
//! The implementation and node tables are string-keyed maps: inserting under
//! an existing key silently replaces the earlier entry, as a map would, so
//! node ids are unique in every configuration.

use vstd::prelude::*;

use crate::assoc::{
    assoc_find, assoc_lookup, assoc_unique, lemma_assoc_lookup_index, lemma_assoc_lookup_none,
    lemma_assoc_push, lemma_assoc_update,
};
use crate::value::Value;

verus! {

/// Declares how a node type is implemented: the port schemas and the name of
/// the sandboxed module resource.
#[derive(Clone, Debug)]
pub struct NodeImplementationData {
    /// Input port schema: port name to type name, if the type declares inputs.
    pub input: Option<Vec<(String, String)>>,
    /// Output port schema, if the type declares outputs.
    pub output: Option<Vec<(String, String)>>,
    /// State schema, if the type declares persisted state.
    pub state: Option<Vec<(String, String)>>,
    /// The module resource identifier.
    pub wasm: String,
}

/// One configured node: which type implements it and its initial state.
#[derive(Clone, Debug)]
pub struct NodeData {
    /// The node type; names an entry of the implementation table.
    pub node_type: String,
    /// Optional initial state handed to the module on request.
    pub state: Option<Value>,
}

impl NodeData {
    /// An exact copy of the node data.
    pub fn duplicate(&self) -> (r: NodeData)
        ensures
            r == *self,
    {
        let state = match &self.state {
            Some(v) => Some(v.duplicate()),
            None => None,
        };
        NodeData { node_type: self.node_type.clone(), state }
    }
}

/// One configured edge, naming its endpoints and optional ports.
#[derive(Clone, Debug)]
pub struct EdgeData {
    /// Id of the source node.
    pub from: String,
    /// Id of the destination node.
    pub to: String,
    /// Source port; absence means the source's sole unnamed port.
    pub from_port: Option<String>,
    /// Destination port; absence means the destination's sole unnamed port.
    pub to_port: Option<String>,
}

/// An exact copy of an optional port name.
pub fn clone_opt_string(o: &Option<String>) -> (r: Option<String>)
    ensures
        r == *o,
{
    match o {
        Some(s) => Some(s.clone()),
        None => None,
    }
}

impl EdgeData {
    /// An exact copy of the edge data.
    pub fn duplicate(&self) -> (r: EdgeData)
        ensures
            r == *self,
    {
        EdgeData {
            from: self.from.clone(),
            to: self.to.clone(),
            from_port: clone_opt_string(&self.from_port),
            to_port: clone_opt_string(&self.to_port),
        }
    }
}

/// A complete graph description: implementations, nodes and edges.
#[derive(Clone, Debug)]
pub struct GraphConfig {
    node_implementations: Vec<(String, NodeImplementationData)>,
    nodes: Vec<(String, NodeData)>,
    edges: Vec<EdgeData>,
}

impl GraphConfig {
    /// The implementation table, keyed by node type.
    pub closed spec fn impls_seq(self) -> Seq<(String, NodeImplementationData)> {
        self.node_implementations@
    }

    /// The node table, keyed by node id.
    pub closed spec fn nodes_seq(self) -> Seq<(String, NodeData)> {
        self.nodes@
    }

    /// The edge list, in insertion order.
    pub closed spec fn edges_seq(self) -> Seq<EdgeData> {
        self.edges@
    }

    /// Node ids and implementation types are unique.
    pub open spec fn wf(self) -> bool {
        assoc_unique(self.nodes_seq()) && assoc_unique(self.impls_seq())
    }

    /// Whether some node carries the id.
    pub open spec fn has_node(self, id: Seq<char>) -> bool {
        assoc_lookup(self.nodes_seq(), id) is Some
    }

    /// The empty configuration.
    pub fn new() -> (r: GraphConfig)
        ensures
            r.wf(),
            r.nodes_seq() =~= Seq::<(String, NodeData)>::empty(),
            r.edges_seq() =~= Seq::<EdgeData>::empty(),
            r.impls_seq() =~= Seq::<(String, NodeImplementationData)>::empty(),
    {
        GraphConfig { node_implementations: Vec::new(), nodes: Vec::new(), edges: Vec::new() }
    }

    /// Declares the node under `id`, replacing any earlier declaration of the
    /// same id; every other entry, and the edges, stay as they were.
    pub fn insert_node(&mut self, id: String, data: NodeData)
        requires
            old(self).wf(),
        ensures
            final(self).wf(),
            assoc_lookup(final(self).nodes_seq(), id@) == Some(data),
            forall|k: Seq<char>|
                k != id@ ==> assoc_lookup(final(self).nodes_seq(), k) == assoc_lookup(
                    old(self).nodes_seq(),
                    k,
                ),
            final(self).edges_seq() == old(self).edges_seq(),
            final(self).impls_seq() == old(self).impls_seq(),
    {
        let found = assoc_find(&self.nodes, &id);
        match found {
            Some(i) => {
                proof {
                    lemma_assoc_update(self.nodes_seq(), i as int, (id, data));
                }
                self.nodes.set(i, (id, data));
            },
            None => {
                proof {
                    lemma_assoc_lookup_none(self.nodes_seq(), id@);
                    lemma_assoc_push(self.nodes_seq(), (id, data));
                }
                self.nodes.push((id, data));
            },
        }
    }

    /// Declares the implementation for `node_type`, replacing any earlier one.
    pub fn insert_node_implementation(&mut self, node_type: String, data: NodeImplementationData)
        requires
            old(self).wf(),
        ensures
            final(self).wf(),
            assoc_lookup(final(self).impls_seq(), node_type@) == Some(data),
            forall|k: Seq<char>|
                k != node_type@ ==> assoc_lookup(final(self).impls_seq(), k) == assoc_lookup(
                    old(self).impls_seq(),
                    k,
                ),
            final(self).nodes_seq() == old(self).nodes_seq(),
            final(self).edges_seq() == old(self).edges_seq(),
    {
        let found = assoc_find(&self.node_implementations, &node_type);
        match found {
            Some(i) => {
                proof {
                    lemma_assoc_update(self.impls_seq(), i as int, (node_type, data));
                }
                self.node_implementations.set(i, (node_type, data));
            },
            None => {
                proof {
                    lemma_assoc_lookup_none(self.impls_seq(), node_type@);
                    lemma_assoc_push(self.impls_seq(), (node_type, data));
                }
                self.node_implementations.push((node_type, data));
            },
        }
    }

    /// Appends an edge. Endpoints are not checked here: dangling edges are
    /// rejected when the graph is built.
    pub fn add_edge(&mut self, edge: EdgeData)
        requires
            old(self).wf(),
        ensures
            final(self).wf(),
            final(self).edges_seq() == old(self).edges_seq().push(edge),
            final(self).nodes_seq() == old(self).nodes_seq(),
            final(self).impls_seq() == old(self).impls_seq(),
    {
        self.edges.push(edge);
    }

    /// The node table in insertion order.
    pub fn nodes(&self) -> (r: &Vec<(String, NodeData)>)
        ensures
            r@ == self.nodes_seq(),
    {
        &self.nodes
    }

    /// The edge list in insertion order.
    pub fn edges(&self) -> (r: &Vec<EdgeData>)
        ensures
            r@ == self.edges_seq(),
    {
        &self.edges
    }

    /// The implementation table in insertion order.
    pub fn node_implementations(&self) -> (r: &Vec<(String, NodeImplementationData)>)
        ensures
            r@ == self.impls_seq(),
    {
        &self.node_implementations
    }

    /// The implementation declared for a node type, if any.
    pub fn node_implementation(&self, node_type: &String) -> (r: Option<&NodeImplementationData>)
        requires
            self.wf(),
        ensures
            match r {
                Some(d) => assoc_lookup(self.impls_seq(), node_type@) == Some(*d),
                None => assoc_lookup(self.impls_seq(), node_type@) is None,
            },
    {
        let found = assoc_find(&self.node_implementations, node_type);
        match found {
            Some(i) => {
                proof {
                    lemma_assoc_lookup_index(self.impls_seq(), i as int);
                }
                Some(&self.node_implementations[i].1)
            },
            None => {
                proof {
                    lemma_assoc_lookup_none(self.impls_seq(), node_type@);
                }
                None
            },
        }
    }
}

} // verus!
