//! Association lists keyed by strings.
//!
//! Several parts of the library keep small string-keyed tables: the port
//! records that flow along edges, the node table of a configuration, and the
//! per-run output store. All of them are vectors of `(String, value)` pairs
//! with pairwise distinct keys, looked up by the first (and, given
//! distinctness, only) matching key. This module defines the lookup and the
//! distinctness predicate at the specification level, and proves how lookup
//! behaves under the two ways the tables grow: updating the entry that holds
//! a key, and pushing an entry whose key is fresh.

use vstd::prelude::*;

verus! {

/// The first value bound to key `k`, if any.
pub open spec fn assoc_lookup<V>(s: Seq<(String, V)>, k: Seq<char>) -> Option<V>
    decreases s.len(),
{
    if s.len() == 0 {
        None
    } else if s[0].0@ == k {
        Some(s[0].1)
    } else {
        assoc_lookup(s.skip(1), k)
    }
}

/// All keys are pairwise distinct.
pub open spec fn assoc_unique<V>(s: Seq<(String, V)>) -> bool {
    forall|i: int, j: int| 0 <= i < j < s.len() ==> s[i].0@ != s[j].0@
}

/// Lookup fails exactly when no entry holds the key.
pub proof fn lemma_assoc_lookup_none<V>(s: Seq<(String, V)>, k: Seq<char>)
    ensures
        assoc_lookup(s, k) is None <==> forall|i: int| 0 <= i < s.len() ==> s[i].0@ != k,
    decreases s.len(),
{
    if s.len() > 0 {
        lemma_assoc_lookup_none(s.skip(1), k);
        assert(forall|i: int| 1 <= i < s.len() ==> #[trigger] s[i] == s.skip(1)[i - 1]);
    }
}

/// Lookup finds the entry that holds the key.
pub proof fn lemma_assoc_lookup_index<V>(s: Seq<(String, V)>, i: int)
    requires
        assoc_unique(s),
        0 <= i < s.len(),
    ensures
        assoc_lookup(s, s[i].0@) == Some(s[i].1),
    decreases s.len(),
{
    if i > 0 {
        lemma_assoc_lookup_index(s.skip(1), i - 1);
        assert(s.skip(1) =~= s.subrange(1, s.len() as int));
        assert(assoc_unique(s.skip(1))) by {
            assert(forall|m: int| 0 <= m < s.len() - 1 ==> #[trigger] s.skip(1)[m] == s[m + 1]);
        }
        assert(s[0].0@ != s[i].0@);
    }
}

/// Replacing the entry at the key's own index rebinds that key and nothing
/// else; distinctness is preserved.
pub proof fn lemma_assoc_update<V>(s: Seq<(String, V)>, i: int, p: (String, V))
    requires
        assoc_unique(s),
        0 <= i < s.len(),
        s[i].0@ == p.0@,
    ensures
        assoc_unique(s.update(i, p)),
        assoc_lookup(s.update(i, p), p.0@) == Some(p.1),
        forall|k: Seq<char>| k != p.0@ ==> assoc_lookup(s.update(i, p), k) == assoc_lookup(s, k),
    decreases s.len(),
{
    let t = s.update(i, p);
    assert(forall|m: int| 0 <= m < s.len() ==> #[trigger] t[m].0@ == s[m].0@);
    if i == 0 {
        assert(t.skip(1) =~= s.skip(1));
        assert forall|k: Seq<char>| k != p.0@ implies assoc_lookup(t, k) == assoc_lookup(
            s,
            k,
        ) by {
            assert(t[0] == p);
            assert(assoc_lookup(t, k) == assoc_lookup(t.skip(1), k));
            assert(assoc_lookup(s, k) == assoc_lookup(s.skip(1), k));
        }
    } else {
        assert(assoc_unique(s.skip(1))) by {
            assert(forall|m: int| 0 <= m < s.len() - 1 ==> #[trigger] s.skip(1)[m] == s[m + 1]);
        }
        lemma_assoc_update(s.skip(1), i - 1, p);
        assert(t.skip(1) =~= s.skip(1).update(i - 1, p));
        assert(s[0].0@ != p.0@);
        assert(t[0] == s[0]);
        assert forall|k: Seq<char>| k != p.0@ implies assoc_lookup(t, k) == assoc_lookup(
            s,
            k,
        ) by {
            if s[0].0@ != k {
                assert(assoc_lookup(t, k) == assoc_lookup(t.skip(1), k));
                assert(assoc_lookup(s, k) == assoc_lookup(s.skip(1), k));
            }
        }
    }
}

/// Appending an entry under a fresh key binds that key and nothing else;
/// distinctness is preserved.
pub proof fn lemma_assoc_push<V>(s: Seq<(String, V)>, p: (String, V))
    requires
        assoc_unique(s),
        assoc_lookup(s, p.0@) is None,
    ensures
        assoc_unique(s.push(p)),
        assoc_lookup(s.push(p), p.0@) == Some(p.1),
        forall|k: Seq<char>| k != p.0@ ==> assoc_lookup(s.push(p), k) == assoc_lookup(s, k),
    decreases s.len(),
{
    lemma_assoc_lookup_none(s, p.0@);
    let t = s.push(p);
    if s.len() == 0 {
        assert(t.skip(1) =~= Seq::<(String, V)>::empty());
        assert forall|k: Seq<char>| k != p.0@ implies assoc_lookup(t, k) == assoc_lookup(
            s,
            k,
        ) by {
            assert(t[0] == p);
            assert(assoc_lookup(t, k) == assoc_lookup(t.skip(1), k));
        }
    } else {
        assert(assoc_unique(s.skip(1))) by {
            assert(forall|m: int| 0 <= m < s.len() - 1 ==> #[trigger] s.skip(1)[m] == s[m + 1]);
        }
        assert(assoc_lookup(s.skip(1), p.0@) is None) by {
            lemma_assoc_lookup_none(s.skip(1), p.0@);
            assert(forall|m: int| 0 <= m < s.len() - 1 ==> #[trigger] s.skip(1)[m] == s[m + 1]);
        }
        lemma_assoc_push(s.skip(1), p);
        assert(t.skip(1) =~= s.skip(1).push(p));
        assert(t[0] == s[0]);
        assert(s[0].0@ != p.0@);
        assert forall|k: Seq<char>| k != p.0@ implies assoc_lookup(t, k) == assoc_lookup(
            s,
            k,
        ) by {
            if s[0].0@ != k {
                assert(assoc_lookup(t, k) == assoc_lookup(t.skip(1), k));
                assert(assoc_lookup(s, k) == assoc_lookup(s.skip(1), k));
            }
        }
    }
}

/// Index of the entry that holds `key`, if any.
pub fn assoc_find<V>(entries: &Vec<(String, V)>, key: &String) -> (r: Option<usize>)
    ensures
        match r {
            Some(i) => 0 <= i < entries@.len() && entries@[i as int].0@ == key@,
            None => forall|i: int| 0 <= i < entries@.len() ==> entries@[i].0@ != key@,
        },
{
    let n = entries.len();
    let mut i: usize = 0;
    while i < n
        invariant
            i <= n,
            n == entries@.len(),
            forall|j: int| 0 <= j < i ==> entries@[j].0@ != key@,
        decreases n - i,
    {
        if entries[i].0.eq(key) {
            return Some(i);
        }
        i = i + 1;
    }
    None
}

} // verus!
