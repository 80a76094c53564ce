use vstd::prelude::*;

use crate::text::str_eq;

verus! {

/// Whether no two entries share a symbol.
pub open spec fn keys_distinct<V>(s: Seq<(String, V)>) -> bool {
    forall|i: int, j: int| 0 <= i < j < s.len() ==> (#[trigger] s[i]).0@ != (#[trigger] s[j]).0@
}

/// The value of the first entry whose symbol is `key`.
pub open spec fn lookup<V>(s: Seq<(String, V)>, key: Seq<char>) -> Option<V>
    decreases s.len(),
{
    if s.len() == 0 {
        None
    } else if s[0].0@ == key {
        Some(s[0].1)
    } else {
        lookup(s.drop_first(), key)
    }
}

/// The index of the first entry whose symbol is `key`, if any.
pub open spec fn index_of<V>(s: Seq<(String, V)>, key: Seq<char>) -> Option<int>
    decreases s.len(),
{
    if s.len() == 0 {
        None
    } else if s[0].0@ == key {
        Some(0)
    } else {
        match index_of(s.drop_first(), key) {
            Some(i) => Some(i + 1),
            None => None,
        }
    }
}

/// `lookup` finds the entry at `index_of`, and nothing when there is none.
pub proof fn lemma_lookup_index<V>(s: Seq<(String, V)>, key: Seq<char>)
    ensures
        match index_of(s, key) {
            Some(i) => 0 <= i < s.len() && s[i].0@ == key && lookup(s, key) == Some(s[i].1)
                && forall|k: int| 0 <= k < i ==> (#[trigger] s[k]).0@ != key,
            None => lookup(s, key) is None && forall|k: int|
                0 <= k < s.len() ==> (#[trigger] s[k]).0@ != key,
        },
    decreases s.len(),
{
    if s.len() > 0 && s[0].0@ != key {
        lemma_lookup_index(s.drop_first(), key);
        assert forall|k: int| 1 <= k < s.len() implies (#[trigger] s[k]).0@ == s.drop_first()[k
            - 1].0@ by {}
    }
}

/// In entries with distinct symbols, the symbol of each entry finds that entry.
pub proof fn lemma_lookup_distinct<V>(s: Seq<(String, V)>, i: int)
    requires
        keys_distinct(s),
        0 <= i < s.len(),
    ensures
        index_of(s, s[i].0@) == Some(i),
        lookup(s, s[i].0@) == Some(s[i].1),
{
    lemma_lookup_index(s, s[i].0@);
    match index_of(s, s[i].0@) {
        Some(j) => {
            if j != i {
                if j < i {
                    assert(s[j].0@ != s[i].0@);
                } else {
                    assert(s[i].0@ != s[j].0@);
                }
            }
        },
        None => {
            assert(s[i].0@ != s[i].0@);
        },
    }
}

/// The entries after setting the value of a symbol: its entry's value is
/// replaced, or an entry is appended when there is none.
pub open spec fn entries_insert<V>(s: Seq<(String, V)>, key: String, value: V) -> Seq<(String, V)> {
    match index_of(s, key@) {
        Some(i) => s.update(i, (key, value)),
        None => s.push((key, value)),
    }
}

/// Setting the value of a symbol changes what that symbol finds, and nothing
/// that another symbol finds.
pub proof fn lemma_lookup_insert<V>(s: Seq<(String, V)>, key: String, value: V, k: Seq<char>)
    ensures
        lookup(entries_insert(s, key, value), k) == (if k == key@ {
            Some(value)
        } else {
            lookup(s, k)
        }),
{
    let t = entries_insert(s, key, value);
    lemma_lookup_index(s, key@);
    lemma_lookup_index(s, k);
    lemma_lookup_index(t, k);
    match index_of(s, key@) {
        Some(i) => {
            assert(t == s.update(i, (key, value)));
            assert forall|m: int| 0 <= m < s.len() implies (#[trigger] t[m]).0@ == s[m].0@ by {}
            match (index_of(s, k), index_of(t, k)) {
                (Some(a), Some(b)) => {
                    if a < b {
                        assert(t[a].0@ == s[a].0@);
                    } else if b < a {
                        assert(t[b].0@ == s[b].0@);
                    }
                },
                (Some(a), None) => {
                    assert(t[a].0@ == s[a].0@);
                },
                (None, Some(b)) => {
                    assert(t[b].0@ == s[b].0@);
                },
                (None, None) => {},
            }
        },
        None => {
            assert(t == s.push((key, value)));
            match (index_of(s, k), index_of(t, k)) {
                (Some(a), Some(b)) => {
                    if a < b {
                        assert(t[a] == s[a]);
                    } else if b < a {
                        assert(t[b] == s[b]);
                    }
                },
                (Some(a), None) => {
                    assert(t[a] == s[a]);
                },
                (None, Some(b)) => {
                    if b < s.len() {
                        assert(t[b] == s[b]);
                    }
                },
                (None, None) => {
                    assert(t[s.len() as int].0@ == key@);
                },
            }
        },
    }
}

/// Entries keyed by symbol, no two with the same symbol, in the order in which
/// their symbols were first inserted.
#[derive(Debug)]
pub struct SymbolMap<V> {
    entries: Vec<(String, V)>,
}

impl<V> SymbolMap<V> {
    #[verifier::type_invariant]
    spec fn distinct(self) -> bool {
        keys_distinct(self.entries@)
    }

    /// The entries, in order.
    pub closed spec fn spec_entries(self) -> Seq<(String, V)> {
        self.entries@
    }

    /// The value held for a symbol.
    pub open spec fn spec_get(self, key: Seq<char>) -> Option<V> {
        lookup(self.spec_entries(), key)
    }

    /// An empty map.
    pub fn new() -> (r: Self)
        ensures
            r.spec_entries() == Seq::<(String, V)>::empty(),
    {
        SymbolMap { entries: Vec::new() }
    }

    /// The number of symbols.
    pub fn len(&self) -> (r: usize)
        ensures
            r == self.spec_entries().len(),
            keys_distinct(self.spec_entries()),
    {
        proof {
            use_type_invariant(self);
        }
        self.entries.len()
    }

    /// Whether there is no symbol.
    pub fn is_empty(&self) -> (r: bool)
        ensures
            r == (self.spec_entries().len() == 0),
    {
        self.entries.len() == 0
    }

    /// The entry at a position.
    pub fn entry(&self, i: usize) -> (r: &(String, V))
        requires
            i < self.spec_entries().len(),
        ensures
            *r == self.spec_entries()[i as int],
    {
        &self.entries[i]
    }

    /// The position of the entry of a symbol, if there is one.
    pub fn find(&self, key: &str) -> (r: Option<usize>)
        ensures
            option_index(r) == index_of(self.spec_entries(), key@),
    {
        let n = self.entries.len();
        let mut i: usize = 0;
        while i < n
            invariant
                n == self.entries@.len(),
                i <= n,
                forall|k: int| 0 <= k < i ==> (#[trigger] self.entries@[k]).0@ != key@,
            decreases n - i,
        {
            if str_eq(self.entries[i].0.as_str(), key) {
                proof {
                    lemma_lookup_index(self.entries@, key@);
                    match index_of(self.entries@, key@) {
                        Some(j) => {
                            if j < i {
                                assert(self.entries@[j].0@ != key@);
                            }
                            if j > i {
                                assert(self.entries@[i as int].0@ != key@);
                            }
                        },
                        None => {
                            assert(self.entries@[i as int].0@ != key@);
                        },
                    }
                }
                return Some(i);
            }
            i = i + 1;
        }
        proof {
            lemma_lookup_index(self.entries@, key@);
            if let Some(j) = index_of(self.entries@, key@) {
                assert(self.entries@[j].0@ != key@);
            }
        }
        None
    }

    /// The value held for a symbol.
    pub fn get(&self, key: &str) -> (r: Option<&V>)
        ensures
            match self.spec_get(key@) {
                Some(v) => r matches Some(x) && *x == v,
                None => r is None,
            },
    {
        proof {
            lemma_lookup_index(self.entries@, key@);
        }
        match self.find(key) {
            Some(i) => Some(&self.entries[i].1),
            None => None,
        }
    }

    /// Sets the value of a symbol: replaces the value of its entry, or appends
    /// an entry when there is none.
    pub fn insert(&mut self, key: String, value: V)
        ensures
            final(self).spec_entries() == (match index_of(old(self).spec_entries(), key@) {
                Some(i) => old(self).spec_entries().update(i, (key, value)),
                None => old(self).spec_entries().push((key, value)),
            }),
            final(self).spec_get(key@) == Some(value),
            forall|k: Seq<char>| k != key@ ==> #[trigger] final(self).spec_get(k) == old(
                self,
            ).spec_get(k),
    {
        proof {
            use_type_invariant(&*self);
            lemma_lookup_index(self.entries@, key@);
        }
        let ghost old_entries = self.entries@;
        let found = self.find(key.as_str());
        match found {
            Some(i) => {
                let ghost k = key@;
                let ghost v = value;
                let mut entries = Vec::new();
                core::mem::swap(&mut entries, &mut self.entries);
                entries.set(i, (key, value));
                proof {
                    let t = entries@;
                    assert(keys_distinct(t)) by {
                        assert forall|a: int, b: int| 0 <= a < b < t.len() implies (
                        #[trigger] t[a]).0@ != (#[trigger] t[b]).0@ by {
                            if a != i && b != i {
                                assert(t[a] == old_entries[a] && t[b] == old_entries[b]);
                            } else if a == i {
                                assert(t[b] == old_entries[b]);
                                assert(old_entries[i as int].0@ != old_entries[b].0@);
                            } else {
                                assert(t[a] == old_entries[a]);
                                assert(old_entries[a].0@ != old_entries[i as int].0@);
                            }
                        }
                    }
                    lemma_lookup_distinct(t, i as int);
                    assert forall|q: Seq<char>| q != k implies #[trigger] lookup(t, q) == lookup(
                        old_entries,
                        q,
                    ) by {
                        lemma_lookup_index(t, q);
                        lemma_lookup_index(old_entries, q);
                        match index_of(old_entries, q) {
                            Some(j) => {
                                assert(old_entries[j].0@ == q);
                                assert(j != i);
                                assert(t[j] == old_entries[j]);
                                match index_of(t, q) {
                                    Some(j2) => {
                                        if j2 < j {
                                            if j2 == i {
                                                assert(t[j2].0@ == k);
                                            } else {
                                                assert(t[j2] == old_entries[j2]);
                                            }
                                        }
                                        if j2 > j {
                                            assert(t[j].0@ != q);
                                        }
                                    },
                                    None => {
                                        assert(t[j].0@ != q);
                                    },
                                }
                            },
                            None => {
                                match index_of(t, q) {
                                    Some(j2) => {
                                        if j2 == i {
                                            assert(t[j2].0@ == k);
                                        } else {
                                            assert(t[j2] == old_entries[j2]);
                                            assert(old_entries[j2].0@ != q);
                                        }
                                    },
                                    None => {},
                                }
                            },
                        }
                    }
                }
                self.entries = entries;
            },
            None => {
                let ghost k = key@;
                let ghost v = value;
                let mut entries = Vec::new();
                core::mem::swap(&mut entries, &mut self.entries);
                entries.push((key, value));
                proof {
                    let t = entries@;
                    let n = old_entries.len() as int;
                    assert(keys_distinct(t)) by {
                        assert forall|a: int, b: int| 0 <= a < b < t.len() implies (
                        #[trigger] t[a]).0@ != (#[trigger] t[b]).0@ by {
                            assert(t[a] == old_entries[a]);
                            if b < n {
                                assert(t[b] == old_entries[b]);
                            } else {
                                assert(old_entries[a].0@ != k);
                            }
                        }
                    }
                    lemma_lookup_distinct(t, n);
                    assert forall|q: Seq<char>| q != k implies #[trigger] lookup(t, q) == lookup(
                        old_entries,
                        q,
                    ) by {
                        lemma_lookup_index(t, q);
                        lemma_lookup_index(old_entries, q);
                        match index_of(t, q) {
                            Some(j2) => {
                                if j2 < n {
                                    assert(t[j2] == old_entries[j2]);
                                    match index_of(old_entries, q) {
                                        Some(j) => {
                                            if j < j2 {
                                                assert(t[j] == old_entries[j]);
                                            }
                                            if j > j2 {
                                                assert(old_entries[j2].0@ == q);
                                            }
                                        },
                                        None => {
                                            assert(old_entries[j2].0@ != q);
                                        },
                                    }
                                } else {
                                    assert(t[j2].0@ == k);
                                }
                            },
                            None => {
                                if let Some(j) = index_of(old_entries, q) {
                                    assert(t[j] == old_entries[j]);
                                }
                            },
                        }
                    }
                }
                self.entries = entries;
            },
        }
    }
}

impl<V: Clone> Clone for SymbolMap<V> {
    /// A copy with the same symbols in the same order, each value cloned.
    fn clone(&self) -> (r: Self)
        ensures
            r.spec_entries().len() == self.spec_entries().len(),
            forall|k: int|
                0 <= k < r.spec_entries().len() ==> (#[trigger] r.spec_entries()[k]).0@
                    == self.spec_entries()[k].0@ && cloned::<V>(
                    self.spec_entries()[k].1,
                    r.spec_entries()[k].1,
                ),
    {
        proof {
            use_type_invariant(self);
        }
        let n = self.entries.len();
        let mut entries: Vec<(String, V)> = Vec::new();
        let mut i: usize = 0;
        while i < n
            invariant
                n == self.entries@.len(),
                keys_distinct(self.entries@),
                i <= n,
                entries@.len() == i,
                forall|k: int|
                    0 <= k < i ==> (#[trigger] entries@[k]).0@ == self.entries@[k].0@ && cloned::<
                        V,
                    >(self.entries@[k].1, entries@[k].1),
            decreases n - i,
        {
            let key = self.entries[i].0.clone();
            let value = self.entries[i].1.clone();
            entries.push((key, value));
            i = i + 1;
        }
        assert(keys_distinct(entries@)) by {
            assert forall|a: int, b: int| 0 <= a < b < entries@.len() implies (
            #[trigger] entries@[a]).0@ != (#[trigger] entries@[b]).0@ by {
                assert(self.entries@[a].0@ != self.entries@[b].0@);
            }
        }
        SymbolMap { entries }
    }
}

/// An optional position as an optional integer.
pub open spec fn option_index(r: Option<usize>) -> Option<int> {
    match r {
        Some(i) => Some(i as int),
        None => None,
    }
}

} // verus!
