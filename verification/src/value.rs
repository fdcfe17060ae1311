//! Plain values exchanged with sandboxed modules.
//!
//! Modules speak a small scalar language: booleans, integers, floating-point
//! numbers and text. The host never computes with these values — it only
//! routes them from one node's outputs to another node's inputs — so
//! floating-point numbers are carried as their IEEE 754 bit patterns, which
//! keeps routing exact and lets every contract speak of plain integers.
//!
//! A [`ValueRecord`] is the string-keyed record a module consumes and
//! produces: one value per named port. A node's sole unnamed port is stored
//! under the empty name.

use vstd::prelude::*;

use crate::assoc::{
    assoc_find, assoc_lookup, assoc_unique, lemma_assoc_lookup_none, lemma_assoc_push,
    lemma_assoc_update,
};

verus! {

/// One scalar value on a port.
#[derive(Clone, Debug, PartialEq)]
pub enum Value {
    /// A boolean.
    Truth(bool),
    /// A signed integer.
    Signed(i64),
    /// A 32-bit IEEE 754 number, carried as its bit pattern.
    Float32(u32),
    /// A 64-bit IEEE 754 number, carried as its bit pattern.
    Float64(u64),
    /// A piece of text; also used for structured state carried verbatim.
    Text(String),
}

impl Value {
    /// An exact copy of the value.
    pub fn duplicate(&self) -> (r: Value)
        ensures
            r == *self,
    {
        match self {
            Value::Truth(b) => Value::Truth(*b),
            Value::Signed(x) => Value::Signed(*x),
            Value::Float32(bits) => Value::Float32(*bits),
            Value::Float64(bits) => Value::Float64(*bits),
            Value::Text(s) => Value::Text(s.clone()),
        }
    }
}

/// A record of port values with pairwise distinct port names.
#[derive(Clone, Debug, PartialEq)]
pub struct ValueRecord {
    entries: Vec<(String, Value)>,
}

impl View for ValueRecord {
    type V = Seq<(String, Value)>;

    closed spec fn view(&self) -> Seq<(String, Value)> {
        self.entries@
    }
}

impl ValueRecord {
    /// Port names are pairwise distinct.
    pub open spec fn wf(self) -> bool {
        assoc_unique(self@)
    }

    /// The empty record.
    pub fn new() -> (r: ValueRecord)
        ensures
            r@ =~= Seq::<(String, Value)>::empty(),
            r.wf(),
    {
        ValueRecord { entries: Vec::new() }
    }

    /// How many ports hold a value.
    pub fn len(&self) -> (n: usize)
        ensures
            n == self@.len(),
    {
        self.entries.len()
    }

    /// The entries in insertion order.
    pub fn entries(&self) -> (r: &Vec<(String, Value)>)
        ensures
            r@ == self@,
    {
        &self.entries
    }

    /// The value on the named port, if any.
    pub fn get(&self, name: &String) -> (r: Option<&Value>)
        requires
            self.wf(),
        ensures
            match r {
                Some(v) => assoc_lookup(self@, name@) == Some(*v),
                None => assoc_lookup(self@, name@) is None,
            },
    {
        let found = assoc_find(&self.entries, name);
        match found {
            Some(i) => {
                proof {
                    crate::assoc::lemma_assoc_lookup_index(self@, i as int);
                }
                Some(&self.entries[i].1)
            },
            None => {
                proof {
                    lemma_assoc_lookup_none(self@, name@);
                }
                None
            },
        }
    }

    /// Binds `name` to `v`, replacing any earlier binding; no other port
    /// changes.
    pub fn set(&mut self, name: String, v: Value)
        requires
            old(self).wf(),
        ensures
            final(self).wf(),
            assoc_lookup(final(self)@, name@) == Some(v),
            forall|k: Seq<char>|
                k != name@ ==> assoc_lookup(final(self)@, k) == assoc_lookup(old(self)@, k),
    {
        let found = assoc_find(&self.entries, &name);
        match found {
            Some(i) => {
                proof {
                    lemma_assoc_update(self@, i as int, (name, v));
                }
                self.entries.set(i, (name, v));
            },
            None => {
                proof {
                    lemma_assoc_lookup_none(self@, name@);
                    lemma_assoc_push(self@, (name, v));
                }
                self.entries.push((name, v));
            },
        }
    }

    /// Whether the port names really are pairwise distinct; `true` on every
    /// record this library builds.
    pub fn is_well_formed(&self) -> (b: bool)
        ensures
            b == self.wf(),
    {
        let n = self.entries.len();
        let mut i: usize = 0;
        while i < n
            invariant
                i <= n,
                n == self@.len(),
                forall|p: int, q: int| 0 <= p < i && p < q < n ==> self@[p].0@ != self@[q].0@,
            decreases n - i,
        {
            let mut j: usize = i + 1;
            while j < n
                invariant
                    i < j <= n,
                    n == self@.len(),
                    forall|q: int| i < q < j ==> self@[i as int].0@ != self@[q].0@,
                decreases n - j,
            {
                if self.entries[i].0.eq(&self.entries[j].0) {
                    return false;
                }
                j = j + 1;
            }
            i = i + 1;
        }
        true
    }

    /// An exact copy of the record.
    pub fn duplicate(&self) -> (r: ValueRecord)
        ensures
            r@ == self@,
            r.wf() == self.wf(),
    {
        let n = self.entries.len();
        let mut out: Vec<(String, Value)> = Vec::new();
        let mut i: usize = 0;
        while i < n
            invariant
                i <= n,
                n == self@.len(),
                out@.len() == i,
                forall|j: int| 0 <= j < i ==> out@[j] == self@[j],
            decreases n - i,
        {
            let name = self.entries[i].0.clone();
            let v = self.entries[i].1.duplicate();
            out.push((name, v));
            i = i + 1;
        }
        proof {
            assert(out@ =~= self@);
        }
        ValueRecord { entries: out }
    }
}

} // verus!
