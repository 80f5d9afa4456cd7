//! A table keyed by text that remembers the order in which its keys came.
//!
//! Keys are compared character by character, with no normalisation. A table
//! is a pair of vectors of equal length in which no key occurs twice, with a
//! hash map from each key to its position; its view is the map from each key
//! to the value beside it.

use vstd::prelude::*;
use vstd::hash_map::StringHashMap;

verus! {

/// A table from text to `V`. Its view is the map from each key to its value.
pub struct Table<V> {
    keys: Vec<String>,
    values: Vec<V>,
    index: StringHashMap<usize>,
}

impl<V> View for Table<V> {
    type V = Map<Seq<char>, V>;

    /// The map from each key to its value.
    open spec fn view(&self) -> Map<Seq<char>, V> {
        Map::new(
            |k: Seq<char>| self.keys().contains(k),
            |k: Seq<char>| self.values()[self.keys().index_of(k)],
        )
    }
}

impl<V> Table<V> {
    /// The keys, oldest first.
    pub closed spec fn keys(&self) -> Seq<Seq<char>> {
        self.keys@.map_values(|s: String| s@)
    }

    /// The values, each at the position of its key.
    pub closed spec fn values(&self) -> Seq<V> {
        self.values@
    }

    /// The index holds the keys, each with its position.
    pub closed spec fn indexed(&self) -> bool {
        &&& forall|k: Seq<char>| #[trigger]
            self.index@.dom().contains(k) <==> self.keys().contains(k)
        &&& forall|i: int|
            0 <= i < self.keys().len() ==> self.index@[#[trigger] self.keys()[i]] == i
    }

    /// Every key has a value beside it, no key occurs twice, and the index
    /// knows where each key stands.
    pub open spec fn wf(&self) -> bool {
        &&& self.keys().len() == self.values().len()
        &&& self.keys().no_duplicates()
        &&& self.indexed()
    }

    /// In a well-formed table the view holds, for each position, the key
    /// there with the value there, and nothing else.
    pub proof fn lemma_view(&self)
        requires
            self.wf(),
        ensures
            forall|i: int|
                0 <= i < self.keys().len() ==> #[trigger] self@.dom().contains(self.keys()[i])
                    && self@[self.keys()[i]] == self.values()[i],
            forall|k: Seq<char>| #[trigger]
                self@.dom().contains(k) <==> self.keys().contains(k),
            forall|k: Seq<char>|
                self.keys().contains(k) ==> 0 <= #[trigger] self.keys().index_of(k)
                    < self.keys().len() && self.keys()[self.keys().index_of(k)] == k,
    {
        assert forall|i: int| 0 <= i < self.keys().len() implies #[trigger] self@.dom().contains(
            self.keys()[i],
        ) && self@[self.keys()[i]] == self.values()[i] by {
            let k = self.keys()[i];
            assert(self.keys().contains(k));
            let j = self.keys().index_of(k);
            assert(self.keys()[j] == k);
        }
    }

    /// An empty table.
    pub fn new() -> (t: Self)
        ensures
            t.wf(),
            t.keys() == Seq::<Seq<char>>::empty(),
            t.values() == Seq::<V>::empty(),
            t@ == Map::<Seq<char>, V>::empty(),
    {
        let t = Table { keys: Vec::new(), values: Vec::new(), index: StringHashMap::new() };
        assert(t.keys() =~= Seq::<Seq<char>>::empty());
        assert(t@ =~= Map::<Seq<char>, V>::empty());
        t
    }

    /// The number of keys.
    pub fn len(&self) -> (n: usize)
        requires
            self.wf(),
        ensures
            n == self.keys().len(),
            n == self.values().len(),
    {
        self.keys.len()
    }

    /// The position of `key`, if the table holds it.
    pub fn position(&self, key: &str) -> (r: Option<usize>)
        requires
            self.wf(),
        ensures
            match r {
                Some(i) => i < self.keys().len() && self.keys()[i as int] == key@,
                None => !self.keys().contains(key@),
            },
            r is Some <==> self@.dom().contains(key@),
    {
        proof {
            self.lemma_view();
        }
        match self.index.get(key) {
            Some(i) => {
                proof {
                    let j = self.keys().index_of(key@);
                    assert(self.keys()[j] == key@);
                }
                Some(*i)
            },
            None => None,
        }
    }

    /// The key at position `i`.
    pub fn key(&self, i: usize) -> (k: &String)
        requires
            self.wf(),
            i < self.keys().len(),
        ensures
            k@ == self.keys()[i as int],
    {
        &self.keys[i]
    }

    /// The value at position `i`.
    pub fn value(&self, i: usize) -> (v: &V)
        requires
            self.wf(),
            i < self.keys().len(),
        ensures
            *v == self.values()[i as int],
            self@.dom().contains(self.keys()[i as int]),
            *v == self@[self.keys()[i as int]],
    {
        proof {
            self.lemma_view();
        }
        &self.values[i]
    }

    /// The value under `key`, if the table holds it.
    pub fn get(&self, key: &str) -> (r: Option<&V>)
        requires
            self.wf(),
        ensures
            match r {
                Some(v) => self@.dom().contains(key@) && *v == self@[key@],
                None => !self@.dom().contains(key@),
            },
    {
        match self.position(key) {
            Some(i) => Some(self.value(i)),
            None => None,
        }
    }

    /// The value at position `i`, to be changed in place. The keys stay as
    /// they are.
    pub fn value_mut(&mut self, i: usize) -> (v: &mut V)
        requires
            old(self).wf(),
            i < old(self).keys().len(),
        ensures
            *v == old(self).values()[i as int],
            final(self).keys() == old(self).keys(),
            final(self).values() == old(self).values().update(i as int, *final(v)),
            final(self).wf(),
            final(self)@ == old(self)@.insert(old(self).keys()[i as int], *final(v)),
    {
        proof {
            self.lemma_view();
        }
        &mut self.values[i]
    }

    /// Appends a key that the table does not hold yet, and gives its position.
    pub fn push(&mut self, key: String, value: V) -> (i: usize)
        requires
            old(self).wf(),
            !old(self).keys().contains(key@),
        ensures
            final(self).wf(),
            i == old(self).keys().len(),
            final(self).keys() == old(self).keys().push(key@),
            final(self).values() == old(self).values().push(value),
            final(self)@ == old(self)@.insert(key@, value),
    {
        let i = self.keys.len();
        self.index.insert(key.clone(), i);
        self.keys.push(key);
        self.values.push(value);
        proof {
            assert(self.keys() =~= old(self).keys().push(key@));
            assert forall|k: Seq<char>| #[trigger]
                self.index@.dom().contains(k) <==> self.keys().contains(k) by {
                if old(self).keys().contains(k) {
                    let j = old(self).keys().index_of(k);
                    assert(old(self).keys()[j] == k);
                    assert(self.keys()[j] == k);
                }
                if self.keys().contains(k) && k != key@ {
                    let j = self.keys().index_of(k);
                    assert(self.keys()[j] == k);
                    assert(old(self).keys()[j] == k);
                }
                if k == key@ {
                    assert(self.keys()[i as int] == k);
                }
            }
            assert forall|j: int| 0 <= j < self.keys().len() implies self.index@[#[trigger] self.keys()[
                j
            ]] == j by {
                if j < i {
                    assert(old(self).keys()[j] == self.keys()[j]);
                    assert(old(self).keys().contains(self.keys()[j]));
                }
            }
            old(self).lemma_view();
            self.lemma_view();
            let grown = old(self)@.insert(key@, value);
            assert(self.keys()[i as int] == key@);
            assert forall|k: Seq<char>| self@.dom().contains(k) <==> grown.dom().contains(
                k,
            ) by {
                if self.keys().contains(k) {
                    let j = self.keys().index_of(k);
                    if j < i {
                        assert(old(self).keys()[j] == k);
                    }
                }
                if old(self).keys().contains(k) {
                    let j = old(self).keys().index_of(k);
                    assert(self.keys()[j] == k);
                }
            }
            assert forall|k: Seq<char>| self@.dom().contains(k) implies self@[k] == grown[k] by {
                let j = self.keys().index_of(k);
                if k != key@ {
                    assert(old(self).keys()[j] == k);
                    assert(old(self).keys().index_of(k) == j);
                }
            }
            assert(self@ =~= grown);
        }
        i
    }

    /// Sets the value under `key`: in place where the table holds the key,
    /// else at the end.
    pub fn insert(&mut self, key: String, value: V)
        requires
            old(self).wf(),
        ensures
            final(self).wf(),
            final(self)@ == old(self)@.insert(key@, value),
            old(self).keys().contains(key@) ==> final(self).keys() == old(self).keys(),
            !old(self).keys().contains(key@) ==> final(self).keys() == old(self).keys().push(key@),
    {
        match self.position(key.as_str()) {
            Some(i) => {
                let slot = self.value_mut(i);
                *slot = value;
            },
            None => {
                self.push(key, value);
            },
        }
    }
}

} // verus!
