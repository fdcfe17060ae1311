//! The sandboxed component host.
//!
//! A [`Runtime`] owns the engine that compiles and verifies sandboxed module
//! binaries, the load-once cache of compiled artifacts keyed by node id, and
//! the per-run data store. Compilation is wasmtime's work and its artifacts
//! are opaque to contracts; everything around the calls — the cache
//! discipline and the data store — is specified exactly.
//!
//! Instantiating and invoking a module are asynchronous suspension points
//! and live with the caller that drives the run; the engine of
//! [`crate::engine`] decides, step by step, what that caller must do.

use vstd::prelude::*;

use crate::assoc::{
    assoc_find, assoc_lookup, assoc_unique, lemma_assoc_lookup_index, lemma_assoc_lookup_none,
    lemma_assoc_push, lemma_assoc_update,
};
use crate::value::ValueRecord;

verus! {

/// Why loading, linking or invoking a module failed.
#[derive(Debug, Clone, PartialEq)]
pub enum RuntimeError {
    /// The module binary could not be compiled or verified.
    WasmLoadError(String),
    /// The module could not be linked or instantiated.
    NodeInitializationError(String),
    /// The module's computation reported an error.
    ComputeError(String),
    /// An operation was requested for a node with no loaded module.
    NodeNotFoundError(String),
    /// The module's binary could not be read.
    FileReadError(String),
}

#[verifier::external_type_specification]
#[verifier::external_body]
pub struct ExEngine(wasmtime::Engine);

#[verifier::external_type_specification]
#[verifier::external_body]
pub struct ExComponent(wasmtime::component::Component);

/// Relies on wasmtime's `Engine::new`: builds the engine every compilation
/// and instantiation runs through, with the component model switched on.
/// Nothing is promised of the outcome: the engine is opaque, and creation
/// may fail.
#[verifier::external_body]
fn make_engine() -> (r: Result<wasmtime::Engine, String>) {
    let mut config = wasmtime::Config::default();
    config.wasm_component_model(true);
    match wasmtime::Engine::new(&config) {
        Ok(engine) => Ok(engine),
        Err(err) => Err(format!("{err:?}")),
    }
}

/// Relies on wasmtime's `Component::new`: compiles and verifies one
/// sandboxed module from its binary (or text) representation, returning an
/// error on malformed input. The artifact is opaque to contracts, so
/// nothing is promised of the outcome.
#[verifier::external_body]
fn compile_component(engine: &wasmtime::Engine, bytes: &Vec<u8>) -> (r: Result<
    wasmtime::component::Component,
    String,
>) {
    match wasmtime::component::Component::new(engine, bytes.as_slice()) {
        Ok(component) => Ok(component),
        Err(err) => Err(format!("{err:?}")),
    }
}

/// The per-run data store: one output record per node id.
#[derive(Debug, Clone)]
pub struct RuntimeData {
    data: Vec<(String, ValueRecord)>,
}

impl View for RuntimeData {
    type V = Seq<(String, ValueRecord)>;

    closed spec fn view(&self) -> Seq<(String, ValueRecord)> {
        self.data@
    }
}

impl RuntimeData {
    /// Node ids are pairwise distinct.
    pub open spec fn wf(self) -> bool {
        assoc_unique(self@)
    }

    /// The empty store.
    pub fn new() -> (r: RuntimeData)
        ensures
            r@ =~= Seq::<(String, ValueRecord)>::empty(),
            r.wf(),
    {
        RuntimeData { data: Vec::new() }
    }

    /// How many nodes have recorded data.
    pub fn len(&self) -> (n: usize)
        ensures
            n == self@.len(),
    {
        self.data.len()
    }

    /// The entries in insertion order.
    pub fn entries(&self) -> (r: &Vec<(String, ValueRecord)>)
        ensures
            r@ == self@,
    {
        &self.data
    }

    /// The record recorded for a node, if any.
    pub fn get_node_input(&self, node_id: &String) -> (r: Option<&ValueRecord>)
        requires
            self.wf(),
        ensures
            match r {
                Some(v) => assoc_lookup(self@, node_id@) == Some(*v),
                None => assoc_lookup(self@, node_id@) is None,
            },
    {
        let found = assoc_find(&self.data, node_id);
        match found {
            Some(i) => {
                proof {
                    lemma_assoc_lookup_index(self@, i as int);
                }
                Some(&self.data[i].1)
            },
            None => {
                proof {
                    lemma_assoc_lookup_none(self@, node_id@);
                }
                None
            },
        }
    }

    /// Records `value` for `node_id`, replacing any earlier record; no other
    /// node's record changes, and every entry afterwards is either the new
    /// record or one that was already there.
    pub fn set(&mut self, node_id: String, value: ValueRecord)
        requires
            old(self).wf(),
        ensures
            final(self).wf(),
            assoc_lookup(final(self)@, node_id@) == Some(value),
            forall|k: Seq<char>|
                k != node_id@ ==> assoc_lookup(final(self)@, k) == assoc_lookup(old(self)@, k),
            forall|i: int|
                0 <= i < final(self)@.len() ==> ((#[trigger] final(self)@[i]).1 == value || old(
                    self,
                )@.contains(final(self)@[i])),
    {
        let found = assoc_find(&self.data, &node_id);
        match found {
            Some(i) => {
                proof {
                    lemma_assoc_update(self@, i as int, (node_id, value));
                }
                self.data.set(i, (node_id, value));
                proof {
                    assert forall|m: int|
                        0 <= m < self@.len() implies ((#[trigger] self@[m]).1 == value || old(
                        self,
                    )@.contains(self@[m])) by {
                        if m != i as int {
                            assert(self@[m] == old(self)@[m]);
                            assert(old(self)@.contains(old(self)@[m]));
                        }
                    }
                }
            },
            None => {
                proof {
                    lemma_assoc_lookup_none(self@, node_id@);
                    lemma_assoc_push(self@, (node_id, value));
                }
                self.data.push((node_id, value));
                proof {
                    assert forall|m: int|
                        0 <= m < self@.len() implies ((#[trigger] self@[m]).1 == value || old(
                        self,
                    )@.contains(self@[m])) by {
                        if m < self@.len() - 1 {
                            assert(self@[m] == old(self)@[m]);
                            assert(old(self)@.contains(old(self)@[m]));
                        }
                    }
                }
            },
        }
    }
}

/// The component host: engine, module cache and data store.
pub struct Runtime {
    engine: wasmtime::Engine,
    components: Vec<(String, wasmtime::component::Component)>,
    runtime_data: RuntimeData,
}

impl Runtime {
    /// The module cache: compiled artifacts keyed by node id.
    pub closed spec fn components_seq(self) -> Seq<(String, wasmtime::component::Component)> {
        self.components@
    }

    /// The data store's entries.
    pub closed spec fn data_seq(self) -> Seq<(String, ValueRecord)> {
        self.runtime_data@
    }

    /// Cache keys and data keys are pairwise distinct.
    pub open spec fn wf(self) -> bool {
        assoc_unique(self.components_seq()) && assoc_unique(self.data_seq())
    }

    /// A node id is cached.
    pub open spec fn has_loaded(self, id: Seq<char>) -> bool {
        assoc_lookup(self.components_seq(), id) is Some
    }

    /// Creates a host with an empty cache and an empty data store. Fails
    /// only if wasmtime cannot create the engine.
    pub fn new() -> (r: Result<Runtime, RuntimeError>)
        ensures
            match r {
                Ok(rt) => rt.wf() && rt.components_seq().len() == 0 && rt.data_seq().len() == 0,
                Err(e) => e is WasmLoadError,
            },
    {
        match make_engine() {
            Ok(engine) => Ok(
                Runtime { engine, components: Vec::new(), runtime_data: RuntimeData::new() },
            ),
            Err(message) => Err(RuntimeError::WasmLoadError(message)),
        }
    }

    /// Compiles `bytes` and caches the artifact under `id`. The cache is
    /// load-once: an id that is already cached keeps its artifact and the
    /// call succeeds without compiling. Otherwise success and failure follow
    /// the compiler's verdict on `bytes`; on failure nothing changes and a
    /// `WasmLoadError` is reported.
    pub fn load_component(&mut self, id: &String, bytes: &Vec<u8>) -> (r: Result<(), RuntimeError>)
        requires
            old(self).wf(),
        ensures
            final(self).wf(),
            final(self).data_seq() == old(self).data_seq(),
            old(self).has_loaded(id@) ==> r is Ok && *final(self) == *old(self),
            match r {
                Ok(()) => final(self).has_loaded(id@) && forall|k: Seq<char>|
                    k != id@ ==> assoc_lookup(final(self).components_seq(), k) == assoc_lookup(
                        old(self).components_seq(),
                        k,
                    ),
                Err(e) => *final(self) == *old(self) && e is WasmLoadError && !old(
                    self,
                ).has_loaded(id@),
            },
    {
        let found = assoc_find(&self.components, id);
        match found {
            Some(i) => {
                proof {
                    lemma_assoc_lookup_index(self.components_seq(), i as int);
                }
                Ok(())
            },
            None => {
                proof {
                    lemma_assoc_lookup_none(self.components_seq(), id@);
                }
                match compile_component(&self.engine, bytes) {
                    Ok(component) => {
                        let key = id.clone();
                        proof {
                            lemma_assoc_push(self.components_seq(), (key, component));
                        }
                        self.components.push((key, component));
                        Ok(())
                    },
                    Err(message) => Err(RuntimeError::WasmLoadError(message)),
                }
            },
        }
    }

    /// The cached artifact for a node id, if any.
    pub fn get_component(&self, id: &String) -> (r: Option<&wasmtime::component::Component>)
        requires
            self.wf(),
        ensures
            r is Some <==> self.has_loaded(id@),
    {
        let found = assoc_find(&self.components, id);
        match found {
            Some(i) => {
                proof {
                    lemma_assoc_lookup_index(self.components_seq(), i as int);
                }
                Some(&self.components[i].1)
            },
            None => {
                proof {
                    lemma_assoc_lookup_none(self.components_seq(), id@);
                }
                None
            },
        }
    }

    /// The recorded data for a node id, if any.
    pub fn get_data(&self, key: &String) -> (r: Option<&ValueRecord>)
        requires
            self.wf(),
        ensures
            match r {
                Some(v) => assoc_lookup(self.data_seq(), key@) == Some(*v),
                None => assoc_lookup(self.data_seq(), key@) is None,
            },
    {
        self.runtime_data.get_node_input(key)
    }

    /// Records data for a node id, replacing any earlier record. The module
    /// cache is untouched.
    pub fn set_data(&mut self, key: String, value: ValueRecord)
        requires
            old(self).wf(),
        ensures
            final(self).wf(),
            final(self).components_seq() == old(self).components_seq(),
            assoc_lookup(final(self).data_seq(), key@) == Some(value),
            forall|k: Seq<char>|
                k != key@ ==> assoc_lookup(final(self).data_seq(), k) == assoc_lookup(
                    old(self).data_seq(),
                    k,
                ),
    {
        self.runtime_data.set(key, value);
    }

    /// The engine that compiled the cached artifacts, for callers that link
    /// and instantiate them.
    pub fn engine(&self) -> (r: &wasmtime::Engine) {
        &self.engine
    }

    /// The whole data store, for read-only iteration.
    pub fn get_data_map(&self) -> (r: &RuntimeData)
        ensures
            r@ == self.data_seq(),
    {
        &self.runtime_data
    }
}

} // verus!
