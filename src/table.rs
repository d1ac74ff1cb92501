//! A symbol table keyed by name. Entries are kept in strictly ascending
//! lexicographic order of their keys, so every key occurs once and walking the
//! table visits the keys in sorted order.
use crate::text::{
    chars_lt, chars_of, lemma_lex_irreflexive, lemma_lex_total, lemma_lex_transitive, lemma_sorted_insert, lex_lt,
    strictly_sorted,
};
use vstd::prelude::*;

verus! {

#[derive(Debug)]
pub struct SymbolTable<V> {
    pub entries: Vec<(String, V)>,
}

impl<V> SymbolTable<V> {
    pub open spec fn len_spec(&self) -> nat {
        self.entries@.len()
    }

    /// The keys, in table order.
    pub open spec fn keys(&self) -> Seq<Seq<char>> {
        self.entries@.map_values(|e: (String, V)| e.0@)
    }

    /// The key of entry `i`.
    pub open spec fn key_at(&self, i: int) -> Seq<char> {
        self.entries@[i].0@
    }

    /// The value of entry `i`.
    pub open spec fn value_at(&self, i: int) -> V {
        self.entries@[i].1
    }

    /// Keys strictly ascend.
    pub open spec fn wf(&self) -> bool {
        strictly_sorted(self.keys())
    }

    pub open spec fn has(&self, k: Seq<char>) -> bool {
        exists|i: int| 0 <= i < self.entries@.len() && #[trigger] self.key_at(i) == k
    }

    /// The value under `k`, where `has(k)`.
    pub open spec fn lookup(&self, k: Seq<char>) -> V {
        self.value_at(choose|i: int| 0 <= i < self.entries@.len() && #[trigger] self.key_at(i) == k)
    }

    /// The table as a map from key to value.
    pub open spec fn map(&self) -> Map<Seq<char>, V> {
        Map::new(|k: Seq<char>| self.has(k), |k: Seq<char>| self.lookup(k))
    }

    pub proof fn lemma_lookup(&self, i: int)
        requires
            self.wf(),
            0 <= i < self.entries@.len(),
        ensures
            self.has(self.key_at(i)),
            self.lookup(self.key_at(i)) == self.value_at(i),
            self.map().contains_key(self.key_at(i)),
            self.map()[self.key_at(i)] == self.value_at(i),
    {
        let k = self.key_at(i);
        assert(self.has(k));
        let j = choose|j: int| 0 <= j < self.entries@.len() && #[trigger] self.key_at(j) == k;
        if j != i {
            self.lemma_keys_distinct(i, j);
        }
    }

    proof fn lemma_map_insert(old_t: &Self, new_t: &Self, p: int, kv: (String, V))
        requires
            old_t.wf(),
            new_t.wf(),
            0 <= p <= old_t.entries@.len(),
            new_t.entries@ == old_t.entries@.insert(p, kv),
        ensures
            new_t.map() == old_t.map().insert(kv.0@, kv.1),
    {
        let n = old_t.entries@.len() as int;
        assert forall|k: Seq<char>| #[trigger] new_t.map().contains_key(k) == old_t.map().insert(kv.0@, kv.1).contains_key(k) by {
            if new_t.has(k) {
                let j = choose|j: int| 0 <= j < n + 1 && #[trigger] new_t.key_at(j) == k;
                if j < p {
                    assert(old_t.key_at(j) == k);
                } else if j > p {
                    assert(old_t.key_at(j - 1) == k);
                }
            }
            if old_t.has(k) {
                let j = choose|j: int| 0 <= j < n && #[trigger] old_t.key_at(j) == k;
                if j < p {
                    assert(new_t.key_at(j) == k);
                } else {
                    assert(new_t.key_at(j + 1) == k);
                }
            }
            if k == kv.0@ {
                assert(new_t.key_at(p) == k);
            }
        }
        assert forall|k: Seq<char>| #[trigger] new_t.map().contains_key(k) implies new_t.map()[k] == old_t.map().insert(kv.0@, kv.1)[k] by {
            if k == kv.0@ {
                new_t.lemma_lookup(p);
            } else {
                let j = choose|j: int| 0 <= j < n && #[trigger] old_t.key_at(j) == k;
                old_t.lemma_lookup(j);
                if j < p {
                    new_t.lemma_lookup(j);
                } else {
                    new_t.lemma_lookup(j + 1);
                }
            }
        }
        assert(new_t.map() =~= old_t.map().insert(kv.0@, kv.1));
    }

    proof fn lemma_map_update(old_t: &Self, new_t: &Self, p: int, kv: (String, V))
        requires
            old_t.wf(),
            new_t.wf(),
            0 <= p < old_t.entries@.len(),
            old_t.key_at(p) == kv.0@,
            new_t.entries@ == old_t.entries@.update(p, kv),
        ensures
            new_t.map() == old_t.map().insert(kv.0@, kv.1),
    {
        let n = old_t.entries@.len() as int;
        assert forall|k: Seq<char>| #[trigger] new_t.map().contains_key(k) == old_t.map().insert(kv.0@, kv.1).contains_key(k) by {
            if new_t.has(k) {
                let j = choose|j: int| 0 <= j < n && #[trigger] new_t.key_at(j) == k;
                assert(old_t.key_at(j) == k);
            }
            if old_t.has(k) {
                let j = choose|j: int| 0 <= j < n && #[trigger] old_t.key_at(j) == k;
                assert(new_t.key_at(j) == k);
            }
        }
        assert forall|k: Seq<char>| #[trigger] new_t.map().contains_key(k) implies new_t.map()[k] == old_t.map().insert(kv.0@, kv.1)[k] by {
            if k == kv.0@ {
                new_t.lemma_lookup(p);
            } else {
                let j = choose|j: int| 0 <= j < n && #[trigger] old_t.key_at(j) == k;
                old_t.lemma_lookup(j);
                new_t.lemma_lookup(j);
            }
        }
        assert(new_t.map() =~= old_t.map().insert(kv.0@, kv.1));
    }

    pub proof fn lemma_keys_distinct(&self, i: int, j: int)
        requires
            self.wf(),
            0 <= i < self.entries@.len(),
            0 <= j < self.entries@.len(),
            i != j,
        ensures
            self.key_at(i) != self.key_at(j),
    {
        assert(self.keys()[i] == self.key_at(i) && self.keys()[j] == self.key_at(j));
        lemma_lex_irreflexive(self.key_at(i));
        if i > j {
            lemma_lex_irreflexive(self.key_at(j));
        }
    }

    pub fn new() -> (r: Self)
        ensures
            r.entries@.len() == 0,
            r.wf(),
    {
        SymbolTable { entries: Vec::new() }
    }

    pub fn len(&self) -> (r: usize)
        ensures
            r == self.entries@.len(),
    {
        self.entries.len()
    }

    pub fn is_empty(&self) -> (r: bool)
        ensures
            r == (self.entries@.len() == 0),
    {
        self.entries.len() == 0
    }

    /// Position of `key` in the table, if present.
    pub fn find(&self, key: &str) -> (r: Option<usize>)
        requires
            self.wf(),
        ensures
            r is None <==> !self.has(key@),
            r matches Some(i) ==> i < self.entries@.len() && self.key_at(i as int) == key@,
    {
        let k = chars_of(key);
        let mut i: usize = 0;
        while i < self.entries.len()
            invariant
                i <= self.entries@.len(),
                k@ == key@,
                forall|j: int| 0 <= j < i ==> self.key_at(j) != key@,
            decreases self.entries@.len() - i,
        {
            let c = chars_of(self.entries[i].0.as_str());
            if !chars_lt(&c, &k) && !chars_lt(&k, &c) {
                proof {
                    if c@ != k@ {
                        lemma_lex_total(c@, k@);
                    }
                    assert(self.key_at(i as int) == key@);
                }
                return Some(i);
            }
            proof {
                lemma_lex_irreflexive(k@);
            }
            i = i + 1;
        }
        None
    }

    /// The value stored under `key`, if any.
    pub fn get(&self, key: &str) -> (r: Option<&V>)
        requires
            self.wf(),
        ensures
            r is None <==> !self.has(key@),
            r matches Some(v) ==> exists|i: int|
                0 <= i < self.entries@.len() && self.key_at(i) == key@ && *v == self.value_at(i),
    {
        match self.find(key) {
            Some(i) => Some(&self.entries[i].1),
            None => None,
        }
    }

    /// Whether `k` orders strictly before the key of entry `i`.
    fn key_before(&self, i: usize, k: &Vec<char>) -> (r: bool)
        requires
            i < self.entries@.len(),
        ensures
            r == lex_lt(k@, self.key_at(i as int)),
    {
        let c = chars_of(self.entries[i].0.as_str());
        chars_lt(k, &c)
    }

    /// Stores `value` under `key`, in its sorted place, replacing a value
    /// already stored there. Returns whether the key was new.
    pub fn insert(&mut self, key: String, value: V) -> (fresh: bool)
        requires
            old(self).wf(),
        ensures
            final(self).wf(),
            fresh == !old(self).has(key@),
            final(self).map() == old(self).map().insert(key@, value),
            fresh ==> exists|p: int|
                0 <= p <= old(self).entries@.len() && final(self).entries@ == old(self).entries@.insert(p, (key, value)),
            !fresh ==> exists|p: int|
                0 <= p < old(self).entries@.len() && old(self).key_at(p) == key@
                    && final(self).entries@ == old(self).entries@.update(p, (key, value)),
    {
        let k = chars_of(key.as_str());
        let mut i: usize = 0;
        let n = self.entries.len();
        while i < n && !self.key_before(i, &k)
            invariant
                i <= n == self.entries@.len(),
                self.entries@ == old(self).entries@,
                self.wf(),
                k@ == key@,
                forall|j: int| 0 <= j < i ==> lex_lt(#[trigger] self.key_at(j), key@),
            decreases n - i,
        {
            let c = chars_of(self.entries[i].0.as_str());
            if !chars_lt(&c, &k) {
                proof {
                    if c@ != k@ {
                        lemma_lex_total(c@, k@);
                    }
                    assert(self.key_at(i as int) == key@);
                    assert(old(self).key_at(i as int) == key@);
                }
                let ghost before = self.entries@;
                let ghost kv = (key, value);
                self.entries.set(i, (key, value));
                proof {
                    assert(self.entries@ == before.update(i as int, kv));
                    assert forall|j: int| 0 <= j < n implies #[trigger] self.keys()[j] == old(self).keys()[j] by {
                        assert(self.keys()[j] == self.key_at(j));
                        assert(old(self).keys()[j] == old(self).key_at(j));
                    }
                    assert(self.keys() =~= old(self).keys());
                    Self::lemma_map_update(old(self), self, i as int, kv);
                }
                return false;
            }
            i = i + 1;
        }
        proof {
            assert forall|j: int| i <= j < n implies lex_lt(key@, #[trigger] self.keys()[j]) by {
                assert(self.keys()[i as int] == self.key_at(i as int));
                if j > i {
                    lemma_lex_transitive(key@, self.keys()[i as int], self.keys()[j]);
                }
            }
            assert forall|j: int| 0 <= j < i implies lex_lt(#[trigger] self.keys()[j], key@) by {
                assert(self.keys()[j] == self.key_at(j));
            }
            assert forall|j: int| 0 <= j < n implies #[trigger] old(self).key_at(j) != key@ by {
                lemma_lex_irreflexive(key@);
                assert(self.keys()[j] == self.key_at(j));
            }
            lemma_sorted_insert(self.keys(), i as int, key@);
        }
        let ghost ks = self.keys();
        let ghost before = self.entries@;
        let ghost kv = (key, value);
        self.entries.insert(i, (key, value));
        proof {
            assert(self.entries@ == before.insert(i as int, kv));
            assert forall|j: int| 0 <= j < n + 1 implies #[trigger] self.keys()[j] == ks.insert(i as int, key@)[j] by {
                assert(self.keys()[j] == self.key_at(j));
                if j < i {
                    assert(ks[j] == old(self).key_at(j));
                } else if j > i {
                    assert(ks[j - 1] == old(self).key_at(j - 1));
                }
            }
            assert(self.keys() =~= ks.insert(i as int, key@));
            Self::lemma_map_insert(old(self), self, i as int, kv);
        }
        true
    }
}

} // verus!
