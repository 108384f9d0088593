//! String-keyed maps whose values are lists of strings (the shape of every
//! index the pipeline writes and the search reads), plus a string-to-string
//! map for the kanji registry. Keys are unique; the insertion order of keys
//! is kept but is not part of the map's meaning.

use vstd::prelude::*;

use crate::text::chars_eq;

verus! {

/// A map from string keys to lists of strings.
pub struct ListMap {
    entries: Vec<(String, Vec<String>)>,
}

/// The view of one stored entry.
pub open spec fn entry_view(e: (String, Vec<String>)) -> (Seq<char>, Seq<Seq<char>>) {
    (e.0@, e.1.deep_view())
}

impl ListMap {
    /// The stored (key, values) entries, in insertion order.
    pub closed spec fn pairs(&self) -> Seq<(Seq<char>, Seq<Seq<char>>)> {
        self.entries@.map_values(|e: (String, Vec<String>)| entry_view(e))
    }

    #[verifier::type_invariant]
    closed spec fn keys_unique(&self) -> bool {
        forall|i: int, j: int|
            0 <= i < j < self.entries@.len() ==> #[trigger] self.entries@[i].0@
                != #[trigger] self.entries@[j].0@
    }

    /// Whether the stored entries are related to the map view as a map should be:
    /// the view's keys are exactly the stored keys, each bound to its stored values,
    /// and no key is stored twice.
    pub open spec fn well_indexed(&self) -> bool {
        &&& forall|k: Seq<char>|
            #![trigger self@.dom().contains(k)]
            self@.dom().contains(k) <==> exists|i: int|
                0 <= i < self.pairs().len() && #[trigger] self.pairs()[i].0 == k
        &&& forall|i: int|
            0 <= i < self.pairs().len() ==> #[trigger] self@[self.pairs()[i].0]
                == self.pairs()[i].1
        &&& forall|i: int, j: int|
            0 <= i < j < self.pairs().len() ==> #[trigger] self.pairs()[i].0
                != #[trigger] self.pairs()[j].0
    }

    proof fn lemma_well_indexed(&self)
        requires
            self.keys_unique(),
        ensures
            self.well_indexed(),
    {
        assert forall|i: int| 0 <= i < self.pairs().len() implies #[trigger] self@[self.pairs()[i].0]
            == self.pairs()[i].1 by {
            let k = self.pairs()[i].0;
            assert(self@.dom().contains(k));
            let j = choose|j: int| 0 <= j < self.pairs().len() && self.pairs()[j].0 == k;
            if j != i {
                if i < j {
                    assert(self.entries@[i].0@ != self.entries@[j].0@);
                } else {
                    assert(self.entries@[j].0@ != self.entries@[i].0@);
                }
            }
        }
        assert forall|i: int, j: int| 0 <= i < j < self.pairs().len() implies #[trigger] self.pairs()[i].0
            != #[trigger] self.pairs()[j].0 by {
            assert(self.entries@[i].0@ != self.entries@[j].0@);
        }
    }

    /// An empty map.
    pub fn new() -> (m: ListMap)
        ensures
            m@ == Map::<Seq<char>, Seq<Seq<char>>>::empty(),
            m.pairs().len() == 0,
    {
        let m = ListMap { entries: Vec::new() };
        assert(m@ =~= Map::<Seq<char>, Seq<Seq<char>>>::empty());
        m
    }

    /// The number of keys.
    pub fn len(&self) -> (n: usize)
        ensures
            n == self.pairs().len(),
            n == self@.dom().len(),
            self.well_indexed(),
    {
        proof {
            use_type_invariant(self);
            self.lemma_well_indexed();
            self.lemma_dom_len();
        }
        self.entries.len()
    }

    proof fn lemma_dom_len(&self)
        requires
            self.keys_unique(),
        ensures
            self@.dom().len() == self.pairs().len(),
            self@.dom().finite(),
    {
        let keys = self.pairs().map_values(|p: (Seq<char>, Seq<Seq<char>>)| p.0);
        assert(keys.no_duplicates()) by {
            assert forall|i: int, j: int| 0 <= i < keys.len() && 0 <= j < keys.len() && i != j
                implies keys[i] != keys[j] by {
                if i < j {
                    assert(self.entries@[i].0@ != self.entries@[j].0@);
                } else {
                    assert(self.entries@[j].0@ != self.entries@[i].0@);
                }
            }
        }
        assert(self@.dom() =~= keys.to_set()) by {
            assert forall|k: Seq<char>| self@.dom().contains(k) <==> keys.to_set().contains(k) by {
                if keys.to_set().contains(k) {
                    let i = choose|i: int| 0 <= i < keys.len() && keys[i] == k;
                    assert(self.pairs()[i].0 == k);
                }
                if self@.dom().contains(k) {
                    let i = choose|i: int| 0 <= i < self.pairs().len() && self.pairs()[i].0 == k;
                    assert(keys[i] == k);
                }
            }
        }
        keys.unique_seq_to_set();
    }

    /// The key of the `i`-th stored entry.
    pub fn key_at(&self, i: usize) -> (k: &String)
        requires
            i < self.pairs().len(),
        ensures
            k@ == self.pairs()[i as int].0,
    {
        &self.entries[i].0
    }

    /// The values of the `i`-th stored entry.
    pub fn values_at(&self, i: usize) -> (v: &Vec<String>)
        requires
            i < self.pairs().len(),
        ensures
            v.deep_view() == self.pairs()[i as int].1,
    {
        &self.entries[i].1
    }

    /// Where `key` is stored, if it is.
    pub fn position(&self, key: &Vec<char>) -> (r: Option<usize>)
        ensures
            self.well_indexed(),
            match r {
                Some(i) => i < self.pairs().len() && self.pairs()[i as int].0 == key@,
                None => !self@.dom().contains(key@),
            },
    {
        proof {
            use_type_invariant(self);
            self.lemma_well_indexed();
        }
        let mut i: usize = 0;
        while i < self.entries.len()
            invariant
                i <= self.entries@.len(),
                self.well_indexed(),
                forall|j: int| 0 <= j < i ==> self.pairs()[j].0 != key@,
            decreases self.entries@.len() - i,
        {
            let k = crate::text::chars_of(self.entries[i].0.as_str());
            if chars_eq(&k, key) {
                return Some(i);
            }
            i += 1;
        }
        None
    }

    /// The values stored under `key`, if any.
    pub fn get(&self, key: &str) -> (r: Option<&Vec<String>>)
        ensures
            match r {
                Some(v) => self@.dom().contains(key@) && v.deep_view() == self@[key@],
                None => !self@.dom().contains(key@),
            },
    {
        let k = crate::text::chars_of(key);
        match self.position(&k) {
            Some(i) => Some(&self.entries[i].1),
            None => None,
        }
    }

    /// Whether `key` is present.
    pub fn contains_key(&self, key: &str) -> (r: bool)
        ensures
            r == self@.dom().contains(key@),
    {
        let k = crate::text::chars_of(key);
        self.position(&k).is_some()
    }

    /// Binds `key` to `values`, replacing what it was bound to.
    pub fn insert(&mut self, key: String, values: Vec<String>)
        ensures
            final(self)@ == old(self)@.insert(key@, values.deep_view()),
    {
        let k = crate::text::chars_of(key.as_str());
        let ghost old_pairs = self.pairs();
        proof {
            use_type_invariant(&*self);
            self.lemma_well_indexed();
        }
        match self.position(&k) {
            Some(i) => {
                let ghost vals = values.deep_view();
                let mut es: Vec<(String, Vec<String>)> = Vec::new();
                std::mem::swap(&mut es, &mut self.entries);
                es.set(i, (key, values));
                self.entries = es;
                proof {
                    assert(self.pairs() == old_pairs.update(i as int, (k@, vals)));
                    assert forall|a: int, b: int| 0 <= a < b < self.entries@.len() implies #[trigger] self.entries@[a].0@
                        != #[trigger] self.entries@[b].0@ by {
                        assert(old_pairs[a].0 != old_pairs[b].0);
                    }
                    self.lemma_well_indexed();
                    assert(self@ =~= old(self)@.insert(k@, vals)) by {
                        assert forall|kk: Seq<char>| #[trigger] self@.dom().contains(kk) <==> old(self)@.insert(k@, vals).dom().contains(kk) by {
                            if self@.dom().contains(kk) {
                                let j = choose|j: int| 0 <= j < self.pairs().len() && self.pairs()[j].0 == kk;
                                if j != i { assert(old_pairs[j].0 == kk); }
                            }
                            if old(self)@.dom().contains(kk) {
                                let j = choose|j: int| 0 <= j < old_pairs.len() && old_pairs[j].0 == kk;
                                if j != i { assert(self.pairs()[j].0 == kk); } else { assert(self.pairs()[i as int].0 == kk); }
                            }
                        }
                        assert forall|kk: Seq<char>| #[trigger] self@.dom().contains(kk) implies self@[kk] == old(self)@.insert(k@, vals)[kk] by {
                            let j = choose|j: int| 0 <= j < self.pairs().len() && self.pairs()[j].0 == kk;
                            assert(self@[self.pairs()[j].0] == self.pairs()[j].1);
                            if j != i {
                                assert(old(self)@[old_pairs[j].0] == old_pairs[j].1);
                            }
                        }
                    }
                }
            },
            None => {
                let ghost vals = values.deep_view();
                let mut es: Vec<(String, Vec<String>)> = Vec::new();
                std::mem::swap(&mut es, &mut self.entries);
                es.push((key, values));
                proof {
                    assert forall|a: int, b: int| 0 <= a < b < es@.len() implies #[trigger] es@[a].0@
                        != #[trigger] es@[b].0@ by {
                        if b < old_pairs.len() {
                            assert(old_pairs[a].0 != old_pairs[b].0);
                        } else {
                            assert(old_pairs[a].0 == es@[a].0@);
                            assert(es@[b].0@ == k@);
                            if old_pairs[a].0 == k@ {
                                assert(old(self)@.dom().contains(k@));
                            }
                        }
                    }
                }
                self.entries = es;
                proof {
                    assert(self.pairs() == old_pairs.push((k@, vals)));
                    assert forall|a: int, b: int| 0 <= a < b < self.entries@.len() implies #[trigger] self.entries@[a].0@
                        != #[trigger] self.entries@[b].0@ by {
                        if b < old_pairs.len() {
                            assert(old_pairs[a].0 != old_pairs[b].0);
                        } else {
                            assert(old_pairs[a].0 == old(self).pairs()[a].0);
                        }
                    }
                    self.lemma_well_indexed();
                    assert(self@ =~= old(self)@.insert(k@, vals)) by {
                        assert forall|kk: Seq<char>| #[trigger] self@.dom().contains(kk) <==> old(self)@.insert(k@, vals).dom().contains(kk) by {
                            if self@.dom().contains(kk) {
                                let j = choose|j: int| 0 <= j < self.pairs().len() && self.pairs()[j].0 == kk;
                                if j < old_pairs.len() { assert(old_pairs[j].0 == kk); }
                            }
                            if kk == k@ {
                                assert(self.pairs()[old_pairs.len() as int].0 == k@);
                            }
                            if old(self)@.dom().contains(kk) {
                                let j = choose|j: int| 0 <= j < old_pairs.len() && old_pairs[j].0 == kk;
                                assert(self.pairs()[j].0 == kk);
                            }
                        }
                        assert forall|kk: Seq<char>| #[trigger] self@.dom().contains(kk) implies self@[kk] == old(self)@.insert(k@, vals)[kk] by {
                            let j = choose|j: int| 0 <= j < self.pairs().len() && self.pairs()[j].0 == kk;
                            assert(self@[self.pairs()[j].0] == self.pairs()[j].1);
                            if j < old_pairs.len() {
                                assert(old(self)@[old_pairs[j].0] == old_pairs[j].1);
                            }
                        }
                    }
                }
            },
        }
    }
}

impl View for ListMap {
    type V = Map<Seq<char>, Seq<Seq<char>>>;

    closed spec fn view(&self) -> Map<Seq<char>, Seq<Seq<char>>> {
        Map::new(
            |k: Seq<char>| exists|i: int| 0 <= i < self.pairs().len() && self.pairs()[i].0 == k,
            |k: Seq<char>|
                self.pairs()[choose|i: int| 0 <= i < self.pairs().len() && self.pairs()[i].0 == k].1,
        )
    }
}

/// A map from string keys to strings.
pub struct StrMap {
    entries: Vec<(String, String)>,
}

/// The view of one stored entry.
pub open spec fn str_entry_view(e: (String, String)) -> (Seq<char>, Seq<char>) {
    (e.0@, e.1@)
}

impl StrMap {
    /// The stored (key, values) entries, in insertion order.
    pub closed spec fn pairs(&self) -> Seq<(Seq<char>, Seq<char>)> {
        self.entries@.map_values(|e: (String, String)| str_entry_view(e))
    }

    #[verifier::type_invariant]
    closed spec fn keys_unique(&self) -> bool {
        forall|i: int, j: int|
            0 <= i < j < self.entries@.len() ==> #[trigger] self.entries@[i].0@
                != #[trigger] self.entries@[j].0@
    }

    /// Whether the stored entries are related to the map view as a map should be:
    /// the view's keys are exactly the stored keys, each bound to its stored values,
    /// and no key is stored twice.
    pub open spec fn well_indexed(&self) -> bool {
        &&& forall|k: Seq<char>|
            #![trigger self@.dom().contains(k)]
            self@.dom().contains(k) <==> exists|i: int|
                0 <= i < self.pairs().len() && #[trigger] self.pairs()[i].0 == k
        &&& forall|i: int|
            0 <= i < self.pairs().len() ==> #[trigger] self@[self.pairs()[i].0]
                == self.pairs()[i].1
        &&& forall|i: int, j: int|
            0 <= i < j < self.pairs().len() ==> #[trigger] self.pairs()[i].0
                != #[trigger] self.pairs()[j].0
    }

    proof fn lemma_well_indexed(&self)
        requires
            self.keys_unique(),
        ensures
            self.well_indexed(),
    {
        assert forall|i: int| 0 <= i < self.pairs().len() implies #[trigger] self@[self.pairs()[i].0]
            == self.pairs()[i].1 by {
            let k = self.pairs()[i].0;
            assert(self@.dom().contains(k));
            let j = choose|j: int| 0 <= j < self.pairs().len() && self.pairs()[j].0 == k;
            if j != i {
                if i < j {
                    assert(self.entries@[i].0@ != self.entries@[j].0@);
                } else {
                    assert(self.entries@[j].0@ != self.entries@[i].0@);
                }
            }
        }
        assert forall|i: int, j: int| 0 <= i < j < self.pairs().len() implies #[trigger] self.pairs()[i].0
            != #[trigger] self.pairs()[j].0 by {
            assert(self.entries@[i].0@ != self.entries@[j].0@);
        }
    }

    /// An empty map.
    pub fn new() -> (m: StrMap)
        ensures
            m@ == Map::<Seq<char>, Seq<char>>::empty(),
            m.pairs().len() == 0,
    {
        let m = StrMap { entries: Vec::new() };
        assert(m@ =~= Map::<Seq<char>, Seq<char>>::empty());
        m
    }

    /// The number of keys.
    pub fn len(&self) -> (n: usize)
        ensures
            n == self.pairs().len(),
            n == self@.dom().len(),
            self.well_indexed(),
    {
        proof {
            use_type_invariant(self);
            self.lemma_well_indexed();
            self.lemma_dom_len();
        }
        self.entries.len()
    }

    proof fn lemma_dom_len(&self)
        requires
            self.keys_unique(),
        ensures
            self@.dom().len() == self.pairs().len(),
            self@.dom().finite(),
    {
        let keys = self.pairs().map_values(|p: (Seq<char>, Seq<char>)| p.0);
        assert(keys.no_duplicates()) by {
            assert forall|i: int, j: int| 0 <= i < keys.len() && 0 <= j < keys.len() && i != j
                implies keys[i] != keys[j] by {
                if i < j {
                    assert(self.entries@[i].0@ != self.entries@[j].0@);
                } else {
                    assert(self.entries@[j].0@ != self.entries@[i].0@);
                }
            }
        }
        assert(self@.dom() =~= keys.to_set()) by {
            assert forall|k: Seq<char>| self@.dom().contains(k) <==> keys.to_set().contains(k) by {
                if keys.to_set().contains(k) {
                    let i = choose|i: int| 0 <= i < keys.len() && keys[i] == k;
                    assert(self.pairs()[i].0 == k);
                }
                if self@.dom().contains(k) {
                    let i = choose|i: int| 0 <= i < self.pairs().len() && self.pairs()[i].0 == k;
                    assert(keys[i] == k);
                }
            }
        }
        keys.unique_seq_to_set();
    }

    /// The key of the `i`-th stored entry.
    pub fn key_at(&self, i: usize) -> (k: &String)
        requires
            i < self.pairs().len(),
        ensures
            k@ == self.pairs()[i as int].0,
    {
        &self.entries[i].0
    }

    /// The value of the `i`-th stored entry.
    pub fn value_at(&self, i: usize) -> (v: &String)
        requires
            i < self.pairs().len(),
        ensures
            v@ == self.pairs()[i as int].1,
    {
        &self.entries[i].1
    }

    /// Where `key` is stored, if it is.
    pub fn position(&self, key: &Vec<char>) -> (r: Option<usize>)
        ensures
            self.well_indexed(),
            match r {
                Some(i) => i < self.pairs().len() && self.pairs()[i as int].0 == key@,
                None => !self@.dom().contains(key@),
            },
    {
        proof {
            use_type_invariant(self);
            self.lemma_well_indexed();
        }
        let mut i: usize = 0;
        while i < self.entries.len()
            invariant
                i <= self.entries@.len(),
                self.well_indexed(),
                forall|j: int| 0 <= j < i ==> self.pairs()[j].0 != key@,
            decreases self.entries@.len() - i,
        {
            let k = crate::text::chars_of(self.entries[i].0.as_str());
            if chars_eq(&k, key) {
                return Some(i);
            }
            i += 1;
        }
        None
    }

    /// The values stored under `key`, if any.
    pub fn get(&self, key: &str) -> (r: Option<&String>)
        ensures
            match r {
                Some(v) => self@.dom().contains(key@) && v@ == self@[key@],
                None => !self@.dom().contains(key@),
            },
    {
        let k = crate::text::chars_of(key);
        match self.position(&k) {
            Some(i) => Some(&self.entries[i].1),
            None => None,
        }
    }

    /// Whether `key` is present.
    pub fn contains_key(&self, key: &str) -> (r: bool)
        ensures
            r == self@.dom().contains(key@),
    {
        let k = crate::text::chars_of(key);
        self.position(&k).is_some()
    }

    /// Binds `key` to `values`, replacing what it was bound to.
    pub fn insert(&mut self, key: String, values: String)
        ensures
            final(self)@ == old(self)@.insert(key@, values@),
    {
        let k = crate::text::chars_of(key.as_str());
        let ghost old_pairs = self.pairs();
        proof {
            use_type_invariant(&*self);
            self.lemma_well_indexed();
        }
        match self.position(&k) {
            Some(i) => {
                let ghost vals = values@;
                let mut es: Vec<(String, String)> = Vec::new();
                std::mem::swap(&mut es, &mut self.entries);
                es.set(i, (key, values));
                self.entries = es;
                proof {
                    assert(self.pairs() == old_pairs.update(i as int, (k@, vals)));
                    assert forall|a: int, b: int| 0 <= a < b < self.entries@.len() implies #[trigger] self.entries@[a].0@
                        != #[trigger] self.entries@[b].0@ by {
                        assert(old_pairs[a].0 != old_pairs[b].0);
                    }
                    self.lemma_well_indexed();
                    assert(self@ =~= old(self)@.insert(k@, vals)) by {
                        assert forall|kk: Seq<char>| #[trigger] self@.dom().contains(kk) <==> old(self)@.insert(k@, vals).dom().contains(kk) by {
                            if self@.dom().contains(kk) {
                                let j = choose|j: int| 0 <= j < self.pairs().len() && self.pairs()[j].0 == kk;
                                if j != i { assert(old_pairs[j].0 == kk); }
                            }
                            if old(self)@.dom().contains(kk) {
                                let j = choose|j: int| 0 <= j < old_pairs.len() && old_pairs[j].0 == kk;
                                if j != i { assert(self.pairs()[j].0 == kk); } else { assert(self.pairs()[i as int].0 == kk); }
                            }
                        }
                        assert forall|kk: Seq<char>| #[trigger] self@.dom().contains(kk) implies self@[kk] == old(self)@.insert(k@, vals)[kk] by {
                            let j = choose|j: int| 0 <= j < self.pairs().len() && self.pairs()[j].0 == kk;
                            assert(self@[self.pairs()[j].0] == self.pairs()[j].1);
                            if j != i {
                                assert(old(self)@[old_pairs[j].0] == old_pairs[j].1);
                            }
                        }
                    }
                }
            },
            None => {
                let ghost vals = values@;
                let mut es: Vec<(String, String)> = Vec::new();
                std::mem::swap(&mut es, &mut self.entries);
                es.push((key, values));
                proof {
                    assert forall|a: int, b: int| 0 <= a < b < es@.len() implies #[trigger] es@[a].0@
                        != #[trigger] es@[b].0@ by {
                        if b < old_pairs.len() {
                            assert(old_pairs[a].0 != old_pairs[b].0);
                        } else {
                            assert(old_pairs[a].0 == es@[a].0@);
                            assert(es@[b].0@ == k@);
                            if old_pairs[a].0 == k@ {
                                assert(old(self)@.dom().contains(k@));
                            }
                        }
                    }
                }
                self.entries = es;
                proof {
                    assert(self.pairs() == old_pairs.push((k@, vals)));
                    assert forall|a: int, b: int| 0 <= a < b < self.entries@.len() implies #[trigger] self.entries@[a].0@
                        != #[trigger] self.entries@[b].0@ by {
                        if b < old_pairs.len() {
                            assert(old_pairs[a].0 != old_pairs[b].0);
                        } else {
                            assert(old_pairs[a].0 == old(self).pairs()[a].0);
                        }
                    }
                    self.lemma_well_indexed();
                    assert(self@ =~= old(self)@.insert(k@, vals)) by {
                        assert forall|kk: Seq<char>| #[trigger] self@.dom().contains(kk) <==> old(self)@.insert(k@, vals).dom().contains(kk) by {
                            if self@.dom().contains(kk) {
                                let j = choose|j: int| 0 <= j < self.pairs().len() && self.pairs()[j].0 == kk;
                                if j < old_pairs.len() { assert(old_pairs[j].0 == kk); }
                            }
                            if kk == k@ {
                                assert(self.pairs()[old_pairs.len() as int].0 == k@);
                            }
                            if old(self)@.dom().contains(kk) {
                                let j = choose|j: int| 0 <= j < old_pairs.len() && old_pairs[j].0 == kk;
                                assert(self.pairs()[j].0 == kk);
                            }
                        }
                        assert forall|kk: Seq<char>| #[trigger] self@.dom().contains(kk) implies self@[kk] == old(self)@.insert(k@, vals)[kk] by {
                            let j = choose|j: int| 0 <= j < self.pairs().len() && self.pairs()[j].0 == kk;
                            assert(self@[self.pairs()[j].0] == self.pairs()[j].1);
                            if j < old_pairs.len() {
                                assert(old(self)@[old_pairs[j].0] == old_pairs[j].1);
                            }
                        }
                    }
                }
            },
        }
    }
}

impl View for StrMap {
    type V = Map<Seq<char>, Seq<char>>;

    closed spec fn view(&self) -> Map<Seq<char>, Seq<char>> {
        Map::new(
            |k: Seq<char>| exists|i: int| 0 <= i < self.pairs().len() && self.pairs()[i].0 == k,
            |k: Seq<char>|
                self.pairs()[choose|i: int| 0 <= i < self.pairs().len() && self.pairs()[i].0 == k].1,
        )
    }
}

} // verus!
