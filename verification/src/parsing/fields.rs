//! The fields of a BibTeX entry: a map from field names to their values.

use super::text::text_eq;
use vstd::prelude::*;

verus! {

/// The fields of an entry, each name at most once.
#[derive(Debug)]
pub struct BibFields {
    entries: Vec<(String, String)>,
}

impl BibFields {
    /// No name occurs twice.
    #[verifier::type_invariant]
    spec fn keys_unique(self) -> bool {
        forall|i: int, j: int|
            0 <= i < j < self.entries@.len() ==> #[trigger] self.entries@[i].0@ != #[trigger] self.entries@[j].0@
    }

    /// Whether some stored field has the name `k`.
    spec fn holds(self, k: Seq<char>) -> bool {
        exists|i: int| 0 <= i < self.entries@.len() && #[trigger] self.entries@[i].0@ == k
    }

    /// The index of the stored field named `k`.
    spec fn index_of(self, k: Seq<char>) -> int {
        choose|i: int| 0 <= i < self.entries@.len() && #[trigger] self.entries@[i].0@ == k
    }

    /// The fields as a map from names to values.
    pub closed spec fn map(self) -> Map<Seq<char>, Seq<char>> {
        Map::new(|k: Seq<char>| self.holds(k), |k: Seq<char>| self.entries@[self.index_of(k)].1@)
    }

    proof fn lemma_index(self, i: int)
        requires
            self.keys_unique(),
            0 <= i < self.entries@.len(),
        ensures
            self.holds(self.entries@[i].0@),
            self.index_of(self.entries@[i].0@) == i,
            self.map().contains_key(self.entries@[i].0@),
            self.map()[self.entries@[i].0@] == self.entries@[i].1@,
    {
        let k = self.entries@[i].0@;
        assert(self.holds(k));
        let j = self.index_of(k);
        if j != i {
            if j < i {
                assert(self.entries@[j].0@ != self.entries@[i].0@);
            } else {
                assert(self.entries@[i].0@ != self.entries@[j].0@);
            }
        }
    }

    /// No fields.
    pub fn new() -> (r: Self)
        ensures
            r@ == Map::<Seq<char>, Seq<char>>::empty(),
    {
        let r = BibFields { entries: Vec::new() };
        assert(r.map() =~= Map::<Seq<char>, Seq<char>>::empty());
        r
    }

    /// The number of fields.
    pub fn len(&self) -> (n: usize)
        ensures
            n == self@.len(),
    {
        proof {
            use_type_invariant(self);
            self.lemma_len();
        }
        self.entries.len()
    }

    proof fn lemma_len(self)
        requires
            self.keys_unique(),
        ensures
            self.map().len() == self.entries@.len(),
        decreases self.entries@.len(),
    {
        let keys = self.entries@.map_values(|e: (String, String)| e.0@);
        assert forall|i: int, j: int| 0 <= i < j < keys.len() implies keys[i] != keys[j] by {}
        keys.unique_seq_to_set();
        assert(self.map().dom() =~= keys.to_set()) by {
            assert forall|k: Seq<char>| self.map().dom().contains(k) implies keys.to_set().contains(k) by {
                let i = choose|i: int| 0 <= i < self.entries@.len() && #[trigger] self.entries@[i].0@ == k;
                assert(keys[i] == k);
            }
            assert forall|k: Seq<char>| keys.to_set().contains(k) implies self.map().dom().contains(k) by {
                let i = choose|i: int| 0 <= i < keys.len() && keys[i] == k;
                assert(self.entries@[i].0@ == k);
            }
        }
    }

    /// The position of the field named `key`, if there is one.
    fn position(&self, key: &str) -> (r: Option<usize>)
        ensures
            match r {
                Some(i) => i < self.entries@.len() && self.entries@[i as int].0@ == key@,
                None => !self.holds(key@),
            },
    {
        let mut i: usize = 0;
        while i < self.entries.len()
            invariant
                i <= self.entries@.len(),
                forall|j: int| 0 <= j < i ==> #[trigger] self.entries@[j].0@ != key@,
            decreases self.entries.len() - i,
        {
            if text_eq(self.entries[i].0.as_str(), key) {
                return Some(i);
            }
            i = i + 1;
        }
        None
    }

    /// The value of the field named `key`.
    pub fn get(&self, key: &str) -> (r: Option<&String>)
        ensures
            match r {
                Some(v) => self@.contains_key(key@) && v@ == self@[key@],
                None => !self@.contains_key(key@),
            },
    {
        proof {
            use_type_invariant(self);
        }
        match self.position(key) {
            Some(i) => {
                proof {
                    self.lemma_index(i as int);
                }
                Some(&self.entries[i].1)
            },
            None => None,
        }
    }

    /// Whether there is a field named `key`.
    pub fn contains_key(&self, key: &str) -> (b: bool)
        ensures
            b == self@.contains_key(key@),
    {
        self.get(key).is_some()
    }

    /// Sets the field `key` to `value`, replacing the value it had.
    pub fn insert(&mut self, key: String, value: String)
        ensures
            final(self)@ == old(self)@.insert(key@, value@),
    {
        proof {
            use_type_invariant(&*self);
        }
        let ghost before = *self;
        match self.position(key.as_str()) {
            Some(i) => {
                let mut v: Vec<(String, String)> = Vec::new();
                std::mem::swap(&mut v, &mut self.entries);
                v.set(i, (key, value));
                self.entries = v;
                proof {
                    assert(self.entries@ == before.entries@.update(i as int, (key, value)));
                    assert forall|a: int, b: int| 0 <= a < b < self.entries@.len() implies #[trigger] self.entries@[a].0@ != #[trigger] self.entries@[b].0@ by {
                        assert(before.entries@[a].0@ != before.entries@[b].0@);
                    }
                    assert forall|k: Seq<char>| #[trigger] self.map().contains_key(k) <==> before.map().insert(key@, value@).contains_key(k) by {
                        if before.holds(k) {
                            let j = before.index_of(k);
                            assert(self.entries@[j].0@ == k);
                        }
                        if self.holds(k) {
                            let j = self.index_of(k);
                            if j != i {
                                assert(before.entries@[j].0@ == k);
                            }
                        }
                    }
                    assert forall|k: Seq<char>| #[trigger] self.map().contains_key(k) implies self.map()[k] == before.map().insert(key@, value@)[k] by {
                        let j = self.index_of(k);
                        self.lemma_index(j);
                        if k != key@ {
                            before.lemma_index(j);
                        }
                    }
                    assert(self.map() =~= before.map().insert(key@, value@));
                }
            },
            None => {
                let mut v: Vec<(String, String)> = Vec::new();
                std::mem::swap(&mut v, &mut self.entries);
                v.push((key, value));
                self.entries = v;
                proof {
                    let n = before.entries@.len() as int;
                    assert forall|a: int, b: int| 0 <= a < b < self.entries@.len() implies #[trigger] self.entries@[a].0@ != #[trigger] self.entries@[b].0@ by {
                        if b == n {
                            assert(before.entries@[a].0@ != key@);
                        } else {
                            assert(before.entries@[a].0@ != before.entries@[b].0@);
                        }
                    }
                    assert forall|k: Seq<char>| #[trigger] self.map().contains_key(k) <==> before.map().insert(key@, value@).contains_key(k) by {
                        if before.holds(k) {
                            let j = before.index_of(k);
                            assert(self.entries@[j].0@ == k);
                        }
                        if k == key@ {
                            assert(self.entries@[n].0@ == k);
                        }
                        if self.holds(k) {
                            let j = self.index_of(k);
                            if j < n {
                                assert(before.entries@[j].0@ == k);
                            }
                        }
                    }
                    assert forall|k: Seq<char>| #[trigger] self.map().contains_key(k) implies self.map()[k] == before.map().insert(key@, value@)[k] by {
                        let j = self.index_of(k);
                        self.lemma_index(j);
                        if j < n {
                            before.lemma_index(j);
                        }
                    }
                    assert(self.map() =~= before.map().insert(key@, value@));
                }
            },
        }
    }

    /// Takes out the field named `key` and gives back its value.
    pub fn remove(&mut self, key: &str) -> (r: Option<String>)
        ensures
            final(self)@ == old(self)@.remove(key@),
            match r {
                Some(v) => old(self)@.contains_key(key@) && v@ == old(self)@[key@],
                None => !old(self)@.contains_key(key@),
            },
    {
        proof {
            use_type_invariant(&*self);
        }
        let ghost before = *self;
        match self.position(key) {
            Some(i) => {
                proof {
                    before.lemma_index(i as int);
                }
                let mut es: Vec<(String, String)> = Vec::new();
                std::mem::swap(&mut es, &mut self.entries);
                let (_k, v) = es.remove(i);
                self.entries = es;
                proof {
                    assert(self.entries@ == before.entries@.remove(i as int));
                    assert forall|k: Seq<char>| #[trigger] self.map().contains_key(k) <==> before.map().remove(key@).contains_key(k) by {
                        if before.holds(k) && k != key@ {
                            let j = before.index_of(k);
                            if j < i {
                                assert(self.entries@[j].0@ == k);
                            } else {
                                assert(j != i);
                                assert(self.entries@[j - 1].0@ == k);
                            }
                        }
                        if self.holds(k) {
                            let j = self.index_of(k);
                            if j < i {
                                assert(before.entries@[j].0@ == k);
                                assert(before.entries@[j].0@ != before.entries@[i as int].0@);
                            } else {
                                assert(before.entries@[j + 1].0@ == k);
                                assert(before.entries@[i as int].0@ != before.entries@[j + 1].0@);
                            }
                        }
                    }
                    assert forall|k: Seq<char>| #[trigger] self.map().contains_key(k) implies self.map()[k] == before.map().remove(key@)[k] by {
                        let j = self.index_of(k);
                        self.lemma_index(j);
                        if j < i {
                            before.lemma_index(j);
                        } else {
                            before.lemma_index(j + 1);
                        }
                    }
                    assert(self.map() =~= before.map().remove(key@));
                }
                Some(v)
            },
            None => {
                proof {
                    assert(before.map() =~= before.map().remove(key@));
                }
                None
            },
        }
    }
}

impl BibFields {
    /// Whether every field of `self` is in `other` with the same value.
    fn within(&self, other: &BibFields) -> (b: bool)
        ensures
            b == (forall|k: Seq<char>| #[trigger] self@.contains_key(k) ==> other@.contains_key(k) && other@[k] == self@[k]),
    {
        proof {
            use_type_invariant(self);
        }
        let mut i: usize = 0;
        while i < self.entries.len()
            invariant
                i <= self.entries@.len(),
                self.keys_unique(),
                forall|j: int| 0 <= j < i ==> #[trigger] other@.contains_key(self.entries@[j].0@)
                    && other@[self.entries@[j].0@] == self.entries@[j].1@,
            decreases self.entries.len() - i,
        {
            match other.get(self.entries[i].0.as_str()) {
                Some(v) => {
                    if !text_eq(v.as_str(), self.entries[i].1.as_str()) {
                        proof {
                            self.lemma_index(i as int);
                            let k = self.entries@[i as int].0@;
                            assert(self@.contains_key(k) && !(other@.contains_key(k) && other@[k] == self@[k]));
                        }
                        return false;
                    }
                },
                None => {
                    proof {
                        self.lemma_index(i as int);
                        let k = self.entries@[i as int].0@;
                        assert(self@.contains_key(k) && !other@.contains_key(k));
                    }
                    return false;
                },
            }
            let ghost k = self.entries@[i as int].0@;
            assert(other@.contains_key(k) && other@[k] == self.entries@[i as int].1@);
            assert forall|j: int| 0 <= j < i + 1 implies #[trigger] other@.contains_key(self.entries@[j].0@)
                && other@[self.entries@[j].0@] == self.entries@[j].1@ by {
                if j < i {
                } else {
                    assert(j == i);
                }
            }
            i = i + 1;
        }
        proof {
            assert forall|k: Seq<char>| #[trigger] self@.contains_key(k) implies other@.contains_key(k) && other@[k] == self@[k] by {
                let j = self.index_of(k);
                self.lemma_index(j);
            }
        }
        true
    }
}

impl PartialEq for BibFields {
    fn eq(&self, other: &BibFields) -> (r: bool) {
        let r = self.within(other) && other.within(self);
        proof {
            if r {
                assert(self@ =~= other@);
            }
        }
        r
    }
}

impl vstd::std_specs::cmp::PartialEqSpecImpl for BibFields {
    open spec fn obeys_eq_spec() -> bool {
        true
    }

    open spec fn eq_spec(&self, other: &BibFields) -> bool {
        self@ == other@
    }
}

impl Eq for BibFields {
}

impl Clone for BibFields {
    fn clone(&self) -> (r: Self)
        ensures
            r@ == self@,
    {
        proof {
            use_type_invariant(self);
        }
        let mut v: Vec<(String, String)> = Vec::new();
        let mut i: usize = 0;
        while i < self.entries.len()
            invariant
                i <= self.entries@.len(),
                v@.len() == i,
                forall|j: int| 0 <= j < i ==> #[trigger] v@[j].0@ == self.entries@[j].0@ && v@[j].1@ == self.entries@[j].1@,
            decreases self.entries.len() - i,
        {
            let k = self.entries[i].0.clone();
            let val = self.entries[i].1.clone();
            v.push((k, val));
            i = i + 1;
        }
        let r = BibFields { entries: v };
        proof {
            assert forall|k: Seq<char>| #[trigger] r.map().contains_key(k) <==> self.map().contains_key(k) by {
                if r.holds(k) {
                    let j = r.index_of(k);
                    assert(self.entries@[j].0@ == k);
                }
                if self.holds(k) {
                    let j = self.index_of(k);
                    assert(r.entries@[j].0@ == k);
                }
            }
            assert forall|k: Seq<char>| #[trigger] r.map().contains_key(k) implies r.map()[k] == self.map()[k] by {
                let j = r.index_of(k);
                r.lemma_index(j);
                self.lemma_index(j);
            }
            assert(r.map() =~= self.map());
        }
        r
    }
}

impl Default for BibFields {
    fn default() -> (r: Self)
        ensures
            r@ == Map::<Seq<char>, Seq<char>>::empty(),
    {
        BibFields::new()
    }
}

impl View for BibFields {
    type V = Map<Seq<char>, Seq<char>>;

    open spec fn view(&self) -> Map<Seq<char>, Seq<char>> {
        self.map()
    }
}

} // verus!
