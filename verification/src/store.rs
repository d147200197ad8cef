//! A small map keyed by strings, kept as a vector of entries in which no key
//! occurs twice. Credentials and cached model lists are held in it.
use vstd::prelude::*;

use crate::text::str_eq;

verus! {

/// The entry at `i` has key `k`.
pub open spec fn key_at<V>(s: Seq<(String, V)>, k: Seq<char>, i: int) -> bool {
    0 <= i < s.len() && s[i].0@ == k
}

/// No key occurs twice.
pub open spec fn keys_unique<V>(s: Seq<(String, V)>) -> bool {
    forall|i: int, j: int| 0 <= i < j < s.len() ==> s[i].0@ != s[j].0@
}

/// The map that a vector of entries stands for.
pub open spec fn entries_map<V>(s: Seq<(String, V)>) -> Map<Seq<char>, V> {
    Map::new(
        |k: Seq<char>| exists|i: int| key_at(s, k, i),
        |k: Seq<char>| s[choose|i: int| key_at(s, k, i)].1,
    )
}

/// With unique keys, the entry holding a key gives its value.
pub proof fn lemma_entries_lookup<V>(s: Seq<(String, V)>, k: Seq<char>, i: int)
    requires
        keys_unique(s),
        key_at(s, k, i),
    ensures
        entries_map(s).dom().contains(k),
        entries_map(s)[k] == s[i].1,
{
    let c = choose|j: int| key_at(s, k, j);
    assert(key_at(s, k, c));
    if c < i {
        assert(s[c].0@ != s[i].0@);
    } else if c > i {
        assert(s[i].0@ != s[c].0@);
    }
}

/// A string-keyed map.
pub struct KeyedStore<V> {
    entries: Vec<(String, V)>,
}

impl<V> KeyedStore<V> {
    #[verifier::type_invariant]
    spec fn unique(self) -> bool {
        keys_unique(self.entries@)
    }

    /// The map held.
    pub closed spec fn map(self) -> Map<Seq<char>, V> {
        entries_map(self.entries@)
    }

    /// An empty map.
    pub fn new() -> (r: Self)
        ensures
            r.map() == Map::<Seq<char>, V>::empty(),
    {
        let r = KeyedStore { entries: Vec::new() };
        assert(r.map() =~= Map::<Seq<char>, V>::empty());
        r
    }

    /// Index of the entry with key `k`.
    fn index_of(&self, k: &str) -> (r: Option<usize>)
        ensures
            match r {
                Some(i) => key_at(self.entries@, k@, i as int),
                None => !self.map().dom().contains(k@),
            },
    {
        let mut i: usize = 0;
        while i < self.entries.len()
            invariant
                i <= self.entries.len(),
                forall|j: int| 0 <= j < i ==> !key_at(self.entries@, k@, j),
            decreases self.entries.len() - i,
        {
            if str_eq(self.entries[i].0.as_str(), k) {
                return Some(i);
            }
            i += 1;
        }
        None
    }

    /// The value under `k`.
    pub fn get(&self, k: &str) -> (r: Option<&V>)
        ensures
            match r {
                Some(v) => self.map().dom().contains(k@) && *v == self.map()[k@],
                None => !self.map().dom().contains(k@),
            },
    {
        proof {
            use_type_invariant(self);
        }
        match self.index_of(k) {
            Some(i) => {
                proof {
                    lemma_entries_lookup(self.entries@, k@, i as int);
                }
                Some(&self.entries[i].1)
            },
            None => None,
        }
    }

    /// Whether `k` has a value.
    pub fn contains(&self, k: &str) -> (b: bool)
        ensures
            b == self.map().dom().contains(k@),
    {
        proof {
            use_type_invariant(self);
        }
        match self.index_of(k) {
            Some(i) => {
                proof {
                    lemma_entries_lookup(self.entries@, k@, i as int);
                }
                true
            },
            None => false,
        }
    }

    /// Sets the value under `k`.
    pub fn insert(&mut self, k: String, v: V)
        ensures
            final(self).map() == old(self).map().insert(k@, v),
    {
        proof {
            use_type_invariant(&*self);
        }
        let ghost s = self.entries@;
        let ghost key = k@;
        let ghost val = v;
        let found = self.index_of(k.as_str());
        let mut e: Vec<(String, V)> = Vec::new();
        std::mem::swap(&mut e, &mut self.entries);
        assert(e@ == s);
        match found {
            Some(i) => {
                e.set(i, (k, v));
                proof {
                    let t = e@;
                    assert(t == s.update(i as int, (t[i as int].0, val)));
                    assert(keys_unique(t)) by {
                        assert forall|a: int, b: int| 0 <= a < b < t.len() implies t[a].0@ != t[b].0@ by {
                            if a != i && b != i {
                                assert(s[a].0@ != s[b].0@);
                            } else if a == i {
                                assert(s[a].0@ != s[b].0@);
                            } else {
                                assert(s[a].0@ != s[b].0@);
                            }
                        }
                    }
                    assert forall|q: Seq<char>| #[trigger] entries_map(t).dom().contains(q)
                        == entries_map(s).insert(key, val).dom().contains(q) by {
                        if exists|j: int| key_at(s, q, j) {
                            let j = choose|j: int| key_at(s, q, j);
                            assert(key_at(t, q, j));
                        }
                        if exists|j: int| key_at(t, q, j) {
                            let j = choose|j: int| key_at(t, q, j);
                            assert(key_at(s, q, j));
                        }
                    }
                    assert forall|q: Seq<char>| entries_map(t).dom().contains(q) implies #[trigger] entries_map(t)[q]
                        == entries_map(s).insert(key, val)[q] by {
                        let j = choose|j: int| key_at(t, q, j);
                        lemma_entries_lookup(t, q, j);
                        if q != key {
                            assert(j != i);
                            assert(key_at(s, q, j));
                            lemma_entries_lookup(s, q, j);
                        }
                    }
                    assert(entries_map(t) =~= entries_map(s).insert(key, val));
                }
            },
            None => {
                e.push((k, v));
                proof {
                    let t = e@;
                    assert(t == s.push((t[s.len() as int].0, val)));
                    assert(keys_unique(t)) by {
                        assert forall|a: int, b: int| 0 <= a < b < t.len() implies t[a].0@ != t[b].0@ by {
                            if b == s.len() {
                                assert(key_at(s, t[a].0@, a));
                            } else {
                                assert(s[a].0@ != s[b].0@);
                            }
                        }
                    }
                    assert forall|q: Seq<char>| #[trigger] entries_map(t).dom().contains(q)
                        == entries_map(s).insert(key, val).dom().contains(q) by {
                        if exists|j: int| key_at(s, q, j) {
                            let j = choose|j: int| key_at(s, q, j);
                            assert(key_at(t, q, j));
                        }
                        if q == key {
                            assert(key_at(t, q, s.len() as int));
                        }
                        if exists|j: int| key_at(t, q, j) {
                            let j = choose|j: int| key_at(t, q, j);
                            if j < s.len() {
                                assert(key_at(s, q, j));
                            }
                        }
                    }
                    assert forall|q: Seq<char>| entries_map(t).dom().contains(q) implies #[trigger] entries_map(t)[q]
                        == entries_map(s).insert(key, val)[q] by {
                        let j = choose|j: int| key_at(t, q, j);
                        lemma_entries_lookup(t, q, j);
                        if q != key {
                            assert(j < s.len());
                            assert(key_at(s, q, j));
                            lemma_entries_lookup(s, q, j);
                        }
                    }
                    assert(entries_map(t) =~= entries_map(s).insert(key, val));
                }
            },
        }
        self.entries = e;
    }

    /// Removes the value under `k`, if any.
    pub fn remove(&mut self, k: &str)
        ensures
            final(self).map() == old(self).map().remove(k@),
    {
        proof {
            use_type_invariant(&*self);
        }
        let ghost s = self.entries@;
        let found = self.index_of(k);
        let mut e: Vec<(String, V)> = Vec::new();
        std::mem::swap(&mut e, &mut self.entries);
        assert(e@ == s);
        match found {
            Some(i) => {
                e.remove(i);
                proof {
                    let t = e@;
                    assert(t == s.remove(i as int));
                    assert(keys_unique(t)) by {
                        assert forall|a: int, b: int| 0 <= a < b < t.len() implies t[a].0@ != t[b].0@ by {
                            let a0 = if a < i { a } else { a + 1 };
                            let b0 = if b < i { b } else { b + 1 };
                            assert(t[a] == s[a0] && t[b] == s[b0]);
                            assert(s[a0].0@ != s[b0].0@);
                        }
                    }
                    assert forall|q: Seq<char>| #[trigger] entries_map(t).dom().contains(q)
                        == entries_map(s).remove(k@).dom().contains(q) by {
                        if exists|j: int| key_at(s, q, j) {
                            let j = choose|j: int| key_at(s, q, j);
                            if q != k@ {
                                assert(j != i);
                                let j2 = if j < i { j } else { j - 1 };
                                assert(t[j2] == s[j]);
                                assert(key_at(t, q, j2));
                            }
                        }
                        if exists|j: int| key_at(t, q, j) {
                            let j = choose|j: int| key_at(t, q, j);
                            let j0 = if j < i { j } else { j + 1 };
                            assert(t[j] == s[j0]);
                            assert(key_at(s, q, j0));
                            assert(j0 != i);
                            assert(s[j0].0@ != s[i as int].0@) by {
                                if j0 < i {
                                    assert(s[j0].0@ != s[i as int].0@);
                                } else {
                                    assert(s[i as int].0@ != s[j0].0@);
                                }
                            }
                        }
                    }
                    assert forall|q: Seq<char>| entries_map(t).dom().contains(q) implies #[trigger] entries_map(t)[q]
                        == entries_map(s).remove(k@)[q] by {
                        let j = choose|j: int| key_at(t, q, j);
                        lemma_entries_lookup(t, q, j);
                        let j0 = if j < i { j } else { j + 1 };
                        assert(t[j] == s[j0]);
                        lemma_entries_lookup(s, q, j0);
                    }
                    assert(entries_map(t) =~= entries_map(s).remove(k@));
                }
            },
            None => {
                assert(entries_map(s) =~= entries_map(s).remove(k@));
            },
        }
        self.entries = e;
    }

    /// The entries, in the order they were first inserted.
    pub fn entries(&self) -> (r: &[(String, V)])
        ensures
            keys_unique(r@),
            entries_map(r@) == self.map(),
    {
        proof {
            use_type_invariant(self);
        }
        self.entries.as_slice()
    }
}

} // verus!
