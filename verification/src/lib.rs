//! A host for directed acyclic computation graphs whose nodes are sandboxed
//! binary modules.
//!
//! The crate is organised leaf-first: [`assoc`] proves the string-keyed
//! tables everything else stores, [`order`] defines the lexicographic order
//! on node identifiers, [`value`] models the plain values that flow along
//! edges, [`config`] holds the in-memory graph description, [`graph`]
//! builds and validates the graph, [`plan`] derives a deterministic
//! execution order and detects cycles, [`engine`] drives a run step by
//! step, and [`host`] owns the compiled module cache.

pub mod assoc;
pub mod config;
pub mod engine;
pub mod graph;
pub mod host;
pub mod order;
pub mod plan;
pub mod value;
