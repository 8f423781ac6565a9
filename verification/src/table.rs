//! String-keyed tables.
//!
//! Manifests key their sections by platform triplet, source name, component
//! name and variable name. A [`Table`] holds such a section as a list of
//! `(key, value)` pairs kept in ascending key order (the order of `str`), so
//! it is walked in key order and no key occurs twice; lookups return the entry
//! for the key, and inserting an existing key replaces its value in place.

use vstd::prelude::*;

use crate::order::{lemma_text_order, text_less, text_lt};
use crate::text::str_eq;

verus! {

/// The value stored for `k`: the first entry carrying that key.
pub open spec fn lookup<V>(items: Seq<(String, V)>, k: Seq<char>) -> Option<V>
    decreases items.len(),
{
    if items.len() == 0 {
        None
    } else if items[0].0@ == k {
        Some(items[0].1)
    } else {
        lookup(items.drop_first(), k)
    }
}

/// The keys of the entries, in order.
pub open spec fn key_views<V>(items: Seq<(String, V)>) -> Seq<Seq<char>> {
    items.map_values(|e: (String, V)| e.0@)
}

/// No key occurs twice.
pub open spec fn distinct_keys<V>(items: Seq<(String, V)>) -> bool {
    forall|i: int, j: int| 0 <= i < j < items.len() ==> items[i].0@ != items[j].0@
}

/// The first position carrying `k`, if any.
pub open spec fn first_index<V>(items: Seq<(String, V)>, k: Seq<char>) -> Option<int>
    decreases items.len(),
{
    if items.len() == 0 {
        None
    } else if items[0].0@ == k {
        Some(0)
    } else {
        match first_index(items.drop_first(), k) {
            Some(i) => Some(i + 1),
            None => None,
        }
    }
}

/// `lookup` and `first_index` agree, and a missing key occurs nowhere.
pub proof fn lemma_first_index<V>(items: Seq<(String, V)>, k: Seq<char>)
    ensures
        first_index(items, k) matches Some(i) ==> 0 <= i < items.len() && items[i].0@ == k
            && lookup(items, k) == Some(items[i].1) && forall|j: int|
            0 <= j < i ==> items[j].0@ != k,
        first_index(items, k) is None ==> lookup(items, k) is None && forall|j: int|
            0 <= j < items.len() ==> items[j].0@ != k,
    decreases items.len(),
{
    if items.len() > 0 && items[0].0@ != k {
        lemma_first_index(items.drop_first(), k);
        assert forall|j: int| 1 <= j < items.len() implies items[j] == items.drop_first()[j
            - 1] by {}
    }
}

/// The keys are in strictly ascending order.
pub open spec fn sorted_keys<V>(items: Seq<(String, V)>) -> bool {
    forall|i: int, j: int| 0 <= i < j < items.len() ==> text_less(items[i].0@, items[j].0@)
}

/// A table of values keyed by text.
#[derive(Debug, PartialEq, Eq)]
pub struct Table<V> {
    entries: Vec<(String, V)>,
}

impl<V> Table<V> {
    #[verifier::type_invariant]
    spec fn wf(&self) -> bool {
        sorted_keys(self.entries@)
    }

    /// The entries, in order.
    pub closed spec fn items(&self) -> Seq<(String, V)> {
        self.entries@
    }

    /// The value stored for `k`.
    pub open spec fn get_spec(&self, k: Seq<char>) -> Option<V> {
        lookup(self.items(), k)
    }

    /// An empty table.
    pub fn new() -> (r: Table<V>)
        ensures
            r.items().len() == 0,
            sorted_keys(r.items()),
    {
        Table { entries: Vec::new() }
    }

    /// The number of entries.
    pub fn len(&self) -> (r: usize)
        ensures
            r == self.items().len(),
    {
        self.entries.len()
    }

    /// Whether the table holds no entry.
    pub fn is_empty(&self) -> (r: bool)
        ensures
            r == (self.items().len() == 0),
    {
        self.entries.len() == 0
    }

    /// The entries, in order.
    pub fn entries(&self) -> (r: &[(String, V)])
        ensures
            r@ == self.items(),
            sorted_keys(r@),
    {
        proof {
            use_type_invariant(self);
        }
        self.entries.as_slice()
    }

    /// Where `key` is stored.
    pub fn position(&self, key: &str) -> (r: Option<usize>)
        ensures
            r matches Some(i) ==> first_index(self.items(), key@) == Some(i as int),
            r is None ==> first_index(self.items(), key@) is None,
    {
        let mut i: usize = 0;
        while i < self.entries.len()
            invariant
                i <= self.items().len(),
                forall|j: int| 0 <= j < i ==> self.items()[j].0@ != key@,
            decreases self.items().len() - i,
        {
            if str_eq(self.entries[i].0.as_str(), key) {
                proof {
                    lemma_first_index(self.items(), key@);
                    if let Some(f) = first_index(self.items(), key@) {
                        assert(f == i);
                    }
                }
                return Some(i);
            }
            i = i + 1;
        }
        proof {
            lemma_first_index(self.items(), key@);
        }
        None
    }

    /// The value stored for `key`.
    pub fn get(&self, key: &str) -> (r: Option<&V>)
        ensures
            r matches Some(v) ==> self.get_spec(key@) == Some(*v),
            r is None ==> self.get_spec(key@) is None,
    {
        proof {
            lemma_first_index(self.items(), key@);
        }
        match self.position(key) {
            Some(i) => Some(&self.entries[i].1),
            None => None,
        }
    }

    /// Whether `key` has a value.
    pub fn contains_key(&self, key: &str) -> (r: bool)
        ensures
            r == (self.get_spec(key@) is Some),
    {
        proof {
            lemma_first_index(self.items(), key@);
        }
        self.position(key).is_some()
    }

    /// Store `value` under `key`, replacing the value of an existing entry in
    /// place or adding a new entry where its key sorts.
    pub fn insert(&mut self, key: String, value: V)
        ensures
            old(self).get_spec(key@) is Some ==> key_views(final(self).items()) == key_views(
                old(self).items(),
            ),
            old(self).get_spec(key@) is None ==> exists|i: int|
                0 <= i <= old(self).items().len() && final(self).items() == old(
                    self,
                ).items().insert(i, (key, value)),
            final(self).get_spec(key@) == Some(value),
            forall|k: Seq<char>| k != key@ ==> final(self).get_spec(k) == old(self).get_spec(k),
            sorted_keys(final(self).items()),
            distinct_keys(final(self).items()),
    {
        proof {
            use_type_invariant(&*self);
        }
        let ghost before = self.items();
        let mut v: Vec<(String, V)> = Vec::new();
        std::mem::swap(&mut v, &mut self.entries);
        assert(v@ == before);
        let mut i: usize = 0;
        while i < v.len() && text_lt(v[i].0.as_str(), key.as_str())
            invariant
                v@ == before,
                i <= before.len(),
                forall|j: int| 0 <= j < i ==> text_less(before[j].0@, key@),
            decreases before.len() - i,
        {
            i = i + 1;
        }
        proof {
            lemma_first_index(before, key@);
        }
        if i < v.len() && str_eq(v[i].0.as_str(), key.as_str()) {
            let ghost e = (key, value);
            proof {
                lemma_text_order(key@, key@, key@);
                if let Some(f) = first_index(before, key@) {
                    if f < i {
                        assert(text_less(before[f].0@, key@));
                    }
                    assert(f == i);
                }
            }
            v.set(i, (key, value));
            proof {
                assert(v@ == before.update(i as int, e));
                assert(key_views(v@) =~= key_views(before));
                lemma_lookup_update(before, i as int, e);
                assert forall|a: int, b: int| 0 <= a < b < v@.len() implies text_less(
                    v@[a].0@,
                    v@[b].0@,
                ) by {
                    assert(v@[a].0@ == before[a].0@);
                    assert(v@[b].0@ == before[b].0@);
                }
            }
            self.entries = v;
        } else {
            let ghost e = (key, value);
            proof {
                assert forall|j: int| i <= j < before.len() implies text_less(
                    key@,
                    #[trigger] before[j].0@,
                ) by {
                    lemma_text_order(before[i as int].0@, key@, before[j].0@);
                    lemma_text_order(key@, before[i as int].0@, before[j].0@);
                    if j > i {
                        assert(text_less(before[i as int].0@, before[j].0@));
                    }
                }
                assert forall|j: int| 0 <= j < before.len() implies before[j].0@ != key@ by {
                    lemma_text_order(key@, key@, key@);
                    if j < i {
                        assert(text_less(before[j].0@, key@));
                    } else {
                        assert(text_less(key@, before[j].0@));
                    }
                }
                if let Some(f) = first_index(before, key@) {
                    assert(before[f].0@ == key@);
                }
            }
            v.insert(i, (key, value));
            proof {
                let u = before.insert(i as int, e);
                assert(v@ == u);
                lemma_lookup_insert(before, i as int, e);
                assert forall|a: int, b: int| 0 <= a < b < u.len() implies text_less(
                    u[a].0@,
                    u[b].0@,
                ) by {
                    if b < i {
                        assert(u[a] == before[a] && u[b] == before[b]);
                    } else if b == i {
                        assert(u[a] == before[a]);
                    } else if a < i {
                        assert(u[a] == before[a] && u[b] == before[b - 1]);
                        lemma_text_order(before[a].0@, key@, before[b - 1].0@);
                    } else if a == i {
                        assert(u[b] == before[b - 1]);
                    } else {
                        assert(u[a] == before[a - 1] && u[b] == before[b - 1]);
                    }
                }
            }
            self.entries = v;
        }
        proof {
            let f = self.items();
            assert forall|a: int, b: int| 0 <= a < b < f.len() implies f[a].0@ != f[b].0@ by {
                lemma_text_order(f[a].0@, f[a].0@, f[a].0@);
            }
        }
    }
}

proof fn lemma_lookup_insert<V>(items: Seq<(String, V)>, i: int, e: (String, V))
    requires
        0 <= i <= items.len(),
        first_index(items, e.0@) is None,
    ensures
        lookup(items.insert(i, e), e.0@) == Some(e.1),
        forall|k: Seq<char>| k != e.0@ ==> lookup(items.insert(i, e), k) == lookup(items, k),
    decreases i,
{
    lemma_first_index(items, e.0@);
    let u = items.insert(i, e);
    if i == 0 {
        assert(u[0] == e);
        assert(u.drop_first() =~= items);
    } else {
        assert(u[0] == items[0]);
        assert(u.drop_first() =~= items.drop_first().insert(i - 1, e));
        lemma_first_index(items.drop_first(), e.0@);
        assert(first_index(items.drop_first(), e.0@) is None) by {
            if let Some(f) = first_index(items.drop_first(), e.0@) {
                assert(items[f + 1] == items.drop_first()[f]);
            }
        }
        lemma_lookup_insert(items.drop_first(), i - 1, e);
        assert(items[0].0@ != e.0@);
        assert forall|k: Seq<char>| k != e.0@ implies lookup(u, k) == lookup(items, k) by {
            if items[0].0@ != k {
                assert(lookup(u, k) == lookup(u.drop_first(), k));
                assert(lookup(items, k) == lookup(items.drop_first(), k));
            }
        }
    }
}

impl<V: Clone> Clone for Table<V> {
    /// A table with the same keys, in the same order, each value cloned.
    fn clone(&self) -> (r: Self)
        ensures
            key_views(r.items()) == key_views(self.items()),
    {
        proof {
            use_type_invariant(self);
        }
        let mut out: Vec<(String, V)> = Vec::new();
        let mut i: usize = 0;
        while i < self.entries.len()
            invariant
                i <= self.entries@.len(),
                out@.len() == i,
                sorted_keys(self.entries@),
                forall|j: int| 0 <= j < i ==> (#[trigger] out@[j]).0@ == self.entries@[j].0@,
            decreases self.entries@.len() - i,
        {
            let k = self.entries[i].0.clone();
            let v = self.entries[i].1.clone();
            out.push((k, v));
            i = i + 1;
        }
        proof {
            assert(key_views(out@) =~= key_views(self.entries@));
            assert forall|a: int, b: int| 0 <= a < b < out@.len() implies text_less(
                out@[a].0@,
                out@[b].0@,
            ) by {
                assert(self.entries@[a].0@ == out@[a].0@);
                assert(self.entries@[b].0@ == out@[b].0@);
            }
        }
        Table { entries: out }
    }
}

proof fn lemma_lookup_update<V>(items: Seq<(String, V)>, i: int, e: (String, V))
    requires
        first_index(items, e.0@) == Some(i),
    ensures
        lookup(items.update(i, e), e.0@) == Some(e.1),
        forall|k: Seq<char>| k != e.0@ ==> lookup(items.update(i, e), k) == lookup(items, k),
        distinct_keys(items) ==> distinct_keys(items.update(i, e)),
    decreases items.len(),
{
    lemma_first_index(items, e.0@);
    let u = items.update(i, e);
    if i > 0 {
        lemma_lookup_update(items.drop_first(), i - 1, e);
        assert(u.drop_first() =~= items.drop_first().update(i - 1, e));
    } else {
        assert(u.drop_first() =~= items.drop_first());
    }
    assert forall|k: Seq<char>| k != e.0@ implies lookup(u, k) == lookup(items, k) by {
        if i > 0 {
            assert(u[0] == items[0]);
            assert(lookup(items.drop_first().update(i - 1, e), k) == lookup(items.drop_first(), k));
        } else {
            assert(items[0].0@ == e.0@);
            assert(u[0] == e);
        }
    }
    assert(distinct_keys(items) ==> distinct_keys(u)) by {
        if distinct_keys(items) {
            assert forall|a: int, b: int| 0 <= a < b < u.len() implies u[a].0@ != u[b].0@ by {
                if a == i || b == i {
                    assert(items[i].0@ == e.0@);
                }
            }
        }
    }
}

} // verus!
