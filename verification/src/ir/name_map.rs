//! Maps keyed by names, kept as a list with each name once.

use vstd::prelude::*;

verus! {

/// A map from names to values, in insertion order; each name occurs once.
#[derive(Debug, PartialEq)]
pub struct NameMap<V: View> {
    entries: Vec<(String, V)>,
}

/// Index of the entry for `k` (the names are distinct, so there is at most one).
pub open spec fn key_index<V>(e: Seq<(String, V)>, k: Seq<char>) -> int {
    choose|i: int| 0 <= i < e.len() && (#[trigger] e[i]).0@ == k
}

pub open spec fn has_key<V>(e: Seq<(String, V)>, k: Seq<char>) -> bool {
    exists|i: int| 0 <= i < e.len() && (#[trigger] e[i]).0@ == k
}

pub open spec fn distinct_keys<V>(e: Seq<(String, V)>) -> bool {
    forall|i: int, j: int|
        0 <= i < e.len() && 0 <= j < e.len() && i != j ==> (#[trigger] e[i]).0@ != (
        #[trigger] e[j]).0@
}

pub open spec fn entries_map<V: View>(e: Seq<(String, V)>) -> Map<Seq<char>, V::V> {
    Map::new(|k: Seq<char>| has_key(e, k), |k: Seq<char>| e[key_index(e, k)].1@)
}

impl<V: View> View for NameMap<V> {
    type V = Map<Seq<char>, V::V>;

    closed spec fn view(&self) -> Map<Seq<char>, V::V> {
        entries_map(self.entries@)
    }
}

impl<V: View> NameMap<V> {
    #[verifier::type_invariant]
    closed spec fn inv(self) -> bool {
        distinct_keys(self.entries@)
    }

    /// Number of entries.
    pub closed spec fn spec_len(&self) -> nat {
        self.entries@.len()
    }

    /// The names in insertion order.
    pub closed spec fn keys_seq(&self) -> Seq<Seq<char>> {
        self.entries@.map_values(|e: (String, V)| e.0@)
    }

    proof fn lemma_view_len(&self)
        requires
            distinct_keys(self.entries@),
        ensures
            self@.dom().finite(),
            self@.dom().len() == self.spec_len(),
            self.keys_seq().len() == self.spec_len(),
            self@.dom() == self.keys_seq().to_set(),
            self.keys_seq().no_duplicates(),
    {
        let ks = self.keys_seq();
        assert(self@.dom() =~= ks.to_set()) by {
            assert forall|k: Seq<char>| self@.dom().contains(k) implies ks.to_set().contains(k) by {
                let i = choose|i: int| 0 <= i < self.entries@.len() && (#[trigger] self.entries@[i]).0@ == k;
                assert(ks[i] == k);
            }
            assert forall|k: Seq<char>| ks.to_set().contains(k) implies self@.dom().contains(k) by {
                let i = choose|i: int| 0 <= i < ks.len() && ks[i] == k;
                assert(self.entries@[i].0@ == k);
            }
        }
        assert(ks.no_duplicates()) by {
            assert forall|i: int, j: int| 0 <= i < ks.len() && 0 <= j < ks.len() && i != j implies ks[i] != ks[j] by {
                assert(self.entries@[i].0@ == ks[i]);
                assert(self.entries@[j].0@ == ks[j]);
            }
        }
        ks.unique_seq_to_set();
    }

    pub fn new() -> (res: NameMap<V>)
        ensures
            res@ == Map::<Seq<char>, V::V>::empty(),
            res.spec_len() == 0,
    {
        let res = NameMap { entries: Vec::new() };
        assert(res@ =~= Map::<Seq<char>, V::V>::empty());
        res
    }

    fn find(&self, key: &str) -> (res: Option<usize>)
        ensures
            match res {
                Some(i) => i < self.entries@.len() && self.entries@[i as int].0@ == key@,
                None => !has_key(self.entries@, key@),
            },
    {
        let mut i: usize = 0;
        while i < self.entries.len()
            invariant
                i <= self.entries@.len(),
                forall|j: int| 0 <= j < i ==> (#[trigger] self.entries@[j]).0@ != key@,
            decreases self.entries.len() - i,
        {
            if crate::text::str_eq(self.entries[i].0.as_str(), key) {
                return Some(i);
            }
            i = i + 1;
        }
        None
    }

    pub fn len(&self) -> (res: usize)
        ensures
            self@.dom().finite(),
            res == self@.dom().len(),
            res == self.spec_len(),
    {
        proof {
            use_type_invariant(self);
            self.lemma_view_len();
        }
        self.entries.len()
    }

    pub fn is_empty(&self) -> (res: bool)
        ensures
            res == (self@.dom().len() == 0),
            res == (self@ == Map::<Seq<char>, V::V>::empty()),
    {
        proof {
            use_type_invariant(self);
            self.lemma_view_len();
            if self.entries@.len() > 0 {
                assert(self@.dom().contains(self.entries@[0].0@));
            }
            if self.entries@.len() == 0 {
                assert(self@ =~= Map::<Seq<char>, V::V>::empty());
            }
        }
        self.entries.len() == 0
    }

    pub fn contains_key(&self, key: &str) -> (res: bool)
        ensures
            res == self@.dom().contains(key@),
    {
        self.find(key).is_some()
    }

    pub fn get(&self, key: &str) -> (res: Option<&V>)
        ensures
            match res {
                Some(v) => self@.dom().contains(key@) && self@[key@] == v@,
                None => !self@.dom().contains(key@),
            },
    {
        proof {
            use_type_invariant(self);
        }
        match self.find(key) {
            Some(i) => {
                proof {
                    let j = key_index(self.entries@, key@);
                    assert(self.entries@[j].0@ == key@);
                }
                Some(&self.entries[i].1)
            },
            None => None,
        }
    }

    /// Inserts or replaces the value for `key`.
    pub fn insert(&mut self, key: String, value: V)
        ensures
            final(self)@ == old(self)@.insert(key@, value@),
    {
        proof {
            use_type_invariant(&*self);
        }
        let ghost kv = key@;
        let ghost vv = value@;
        let ghost old_e = self.entries@;
        match self.find(key.as_str()) {
            Some(i) => {
                let mut entries: Vec<(String, V)> = Vec::new();
                std::mem::swap(&mut entries, &mut self.entries);
                entries.set(i, (key, value));
                proof {
                    let e = entries@;
                    assert(distinct_keys(e)) by {
                        assert forall|a: int, b: int|
                            0 <= a < e.len() && 0 <= b < e.len() && a != b implies (
                            #[trigger] e[a]).0@ != (#[trigger] e[b]).0@ by {
                            assert(old_e[a].0@ != old_e[b].0@);
                        }
                    }
                    assert(entries_map(e) =~= entries_map(old_e).insert(kv, vv)) by {
                        assert forall|k: Seq<char>| #[trigger] entries_map(e).dom().contains(k) == entries_map(old_e).insert(kv, vv).dom().contains(k) by {
                            if has_key(old_e, k) {
                                let j = choose|j: int| 0 <= j < old_e.len() && (#[trigger] old_e[j]).0@ == k;
                                if j == i {
                                    assert(e[j].0@ == k);
                                } else {
                                    assert(e[j] == old_e[j]);
                                }
                            }
                            if has_key(e, k) {
                                let j = choose|j: int| 0 <= j < e.len() && (#[trigger] e[j]).0@ == k;
                                if j != i {
                                    assert(e[j] == old_e[j]);
                                }
                            }
                        }
                        assert forall|k: Seq<char>| #[trigger] entries_map(e).dom().contains(k) implies entries_map(e)[k] == entries_map(old_e).insert(kv, vv)[k] by {
                            let j = key_index(e, k);
                            if k == kv {
                                assert(e[i as int].0@ == k);
                            } else {
                                assert(e[j] == old_e[j]);
                                let j2 = key_index(old_e, k);
                                assert(old_e[j2].0@ == k);
                            }
                        }
                    }
                }
                self.entries = entries;
            },
            None => {
                let mut entries: Vec<(String, V)> = Vec::new();
                std::mem::swap(&mut entries, &mut self.entries);
                entries.push((key, value));
                proof {
                    let e = entries@;
                    assert(distinct_keys(e)) by {
                        assert forall|a: int, b: int|
                            0 <= a < e.len() && 0 <= b < e.len() && a != b implies (
                            #[trigger] e[a]).0@ != (#[trigger] e[b]).0@ by {
                            if a < old_e.len() && b < old_e.len() {
                                assert(old_e[a].0@ != old_e[b].0@);
                            } else if a < old_e.len() {
                                assert(e[a] == old_e[a]);
                            } else {
                                assert(e[b] == old_e[b]);
                            }
                        }
                    }
                    assert(entries_map(e) =~= entries_map(old_e).insert(kv, vv)) by {
                        assert forall|k: Seq<char>| #[trigger] entries_map(e).dom().contains(k) == entries_map(old_e).insert(kv, vv).dom().contains(k) by {
                            if has_key(old_e, k) {
                                let j = choose|j: int| 0 <= j < old_e.len() && (#[trigger] old_e[j]).0@ == k;
                                assert(e[j] == old_e[j]);
                            }
                            if k == kv {
                                assert(e[old_e.len() as int].0@ == k);
                            }
                            if has_key(e, k) {
                                let j = choose|j: int| 0 <= j < e.len() && (#[trigger] e[j]).0@ == k;
                                if j < old_e.len() {
                                    assert(e[j] == old_e[j]);
                                }
                            }
                        }
                        assert forall|k: Seq<char>| #[trigger] entries_map(e).dom().contains(k) implies entries_map(e)[k] == entries_map(old_e).insert(kv, vv)[k] by {
                            let j = key_index(e, k);
                            if k == kv {
                                assert(e[old_e.len() as int].0@ == k);
                            } else {
                                assert(j < old_e.len());
                                assert(e[j] == old_e[j]);
                                let j2 = key_index(old_e, k);
                                assert(old_e[j2].0@ == k);
                            }
                        }
                    }
                }
                self.entries = entries;
            },
        }
    }

    /// Removes the entry for `key` and returns its value.
    pub fn remove(&mut self, key: &str) -> (res: Option<V>)
        ensures
            final(self)@ == old(self)@.remove(key@),
            match res {
                Some(v) => old(self)@.dom().contains(key@) && old(self)@[key@] == v@,
                None => !old(self)@.dom().contains(key@),
            },
    {
        proof {
            use_type_invariant(&*self);
        }
        let ghost kv = key@;
        let ghost old_e = self.entries@;
        match self.find(key) {
            Some(i) => {
                let mut entries: Vec<(String, V)> = Vec::new();
                std::mem::swap(&mut entries, &mut self.entries);
                let (_k, v) = entries.remove(i);
                proof {
                    let e = entries@;
                    assert(forall|j: int| 0 <= j < i ==> e[j] == old_e[j]);
                    assert(forall|j: int| i <= j < e.len() ==> e[j] == old_e[j + 1]);
                    assert(distinct_keys(e)) by {
                        assert forall|a: int, b: int|
                            0 <= a < e.len() && 0 <= b < e.len() && a != b implies (
                            #[trigger] e[a]).0@ != (#[trigger] e[b]).0@ by {
                            let a2 = if a < i { a } else { a + 1 };
                            let b2 = if b < i { b } else { b + 1 };
                            assert(old_e[a2].0@ != old_e[b2].0@);
                        }
                    }
                    let j0 = key_index(old_e, kv);
                    assert(old_e[i as int].0@ == kv);
                    assert(j0 == i);
                    assert(entries_map(e) =~= entries_map(old_e).remove(kv)) by {
                        assert forall|k: Seq<char>| #[trigger] entries_map(e).dom().contains(k) == entries_map(old_e).remove(kv).dom().contains(k) by {
                            if has_key(e, k) {
                                let j = choose|j: int| 0 <= j < e.len() && (#[trigger] e[j]).0@ == k;
                                let j2 = if j < i { j } else { j + 1 };
                                assert(old_e[j2].0@ == k);
                                assert(j2 != i);
                            }
                            if has_key(old_e, k) && k != kv {
                                let j = choose|j: int| 0 <= j < old_e.len() && (#[trigger] old_e[j]).0@ == k;
                                assert(j != i);
                                let j2 = if j < i { j } else { j - 1 };
                                assert(e[j2].0@ == k);
                            }
                        }
                        assert forall|k: Seq<char>| #[trigger] entries_map(e).dom().contains(k) implies entries_map(e)[k] == entries_map(old_e).remove(kv)[k] by {
                            let j = key_index(e, k);
                            let j2 = if j < i { j } else { j + 1 };
                            assert(old_e[j2].0@ == k);
                            let j3 = key_index(old_e, k);
                            assert(old_e[j3].0@ == k);
                            assert(j3 == j2);
                        }
                    }
                }
                self.entries = entries;
                Some(v)
            },
            None => {
                assert(old(self)@.remove(kv) =~= old(self)@);
                None
            },
        }
    }

    /// The entries in insertion order.
    pub fn entries(&self) -> (res: &Vec<(String, V)>)
        ensures
            res@.len() == self.spec_len(),
            forall|i: int| 0 <= i < res@.len() ==> self@.dom().contains(#[trigger] res@[i].0@)
                && self@[res@[i].0@] == res@[i].1@,
            forall|k: Seq<char>| #[trigger] self@.dom().contains(k) ==> exists|i: int| 0 <= i < res@.len() && (#[trigger] res@[i]).0@ == k,
            self.keys_seq().len() == res@.len(),
            forall|i: int| 0 <= i < res@.len() ==> #[trigger] self.keys_seq()[i] == res@[i].0@,
            self.keys_seq().no_duplicates(),
    {
        proof {
            use_type_invariant(self);
            self.lemma_view_len();
            assert forall|i: int| 0 <= i < self.entries@.len() implies self@.dom().contains(#[trigger] self.entries@[i].0@)
                && self@[self.entries@[i].0@] == self.entries@[i].1@ by {
                let k = self.entries@[i].0@;
                let j = key_index(self.entries@, k);
                assert(self.entries@[j].0@ == k);
            }
        }
        &self.entries
    }
}

impl<V: View> Default for NameMap<V> {
    fn default() -> (res: NameMap<V>)
        ensures
            res@ == Map::<Seq<char>, V::V>::empty(),
    {
        NameMap::new()
    }
}


} // verus!
