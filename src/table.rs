use vstd::prelude::*;

verus! {

/// The text of each string, in order.
pub open spec fn texts(v: Seq<String>) -> Seq<Seq<char>> {
    v.map_values(|s: String| s@)
}

/// A small table keyed by text, in insertion order, with unique keys. Its
/// view is the map from each key to its value.
pub struct LabelTable<V> {
    entries: Vec<(String, V)>,
    contents: Ghost<Map<Seq<char>, V>>,
}

impl<V> View for LabelTable<V> {
    type V = Map<Seq<char>, V>;

    closed spec fn view(&self) -> Map<Seq<char>, V> {
        self.contents@
    }
}

impl<V> LabelTable<V> {
    /// The keys, in the table's order.
    pub closed spec fn key_seq(&self) -> Seq<Seq<char>> {
        self.entries@.map_values(|e: (String, V)| e.0@)
    }

    /// The values, in the table's order.
    pub closed spec fn value_seq(&self) -> Seq<V> {
        self.entries@.map_values(|e: (String, V)| e.1)
    }

    pub open spec fn wf(&self) -> bool {
        &&& self.key_seq().len() == self.value_seq().len()
        &&& self.key_seq().no_duplicates()
        &&& forall|i: int| 0 <= i < self.key_seq().len() ==> {
            &&& self@.contains_key(#[trigger] self.key_seq()[i])
            &&& self@[self.key_seq()[i]] == self.value_seq()[i]
        }
        &&& forall|k: Seq<char>| #[trigger] self@.contains_key(k) ==> self.key_seq().contains(k)
    }

    pub fn new() -> (r: Self)
        ensures
            r.wf(),
            r@ == Map::<Seq<char>, V>::empty(),
    {
        let r = LabelTable { entries: Vec::new(), contents: Ghost(Map::empty()) };
        proof {
            assert(r.key_seq() =~= Seq::<Seq<char>>::empty());
        }
        r
    }

    pub fn len(&self) -> (r: usize)
        requires
            self.wf(),
        ensures
            r == self.key_seq().len(),
            r == self@.len(),
    {
        proof {
            self.lemma_len();
        }
        self.entries.len()
    }

    proof fn lemma_len(&self)
        requires
            self.wf(),
        ensures
            self@.dom().finite(),
            self@.len() == self.key_seq().len(),
    {
        let ks = self.key_seq();
        assert(self@.dom() =~= ks.to_set());
        ks.unique_seq_to_set();
    }

    /// The key at position `i`.
    pub fn key_at(&self, i: usize) -> (r: &String)
        requires
            self.wf(),
            i < self.key_seq().len(),
        ensures
            r@ == self.key_seq()[i as int],
    {
        &self.entries[i].0
    }

    /// The value at position `i`.
    pub fn value_at(&self, i: usize) -> (r: &V)
        requires
            self.wf(),
            i < self.key_seq().len(),
        ensures
            *r == self.value_seq()[i as int],
    {
        &self.entries[i].1
    }

    /// The position of `key`, if the table holds it.
    pub fn position(&self, key: &str) -> (r: Option<usize>)
        requires
            self.wf(),
        ensures
            match r {
                Some(i) => i < self.key_seq().len() && self.key_seq()[i as int] == key@,
                None => !self@.contains_key(key@),
            },
    {
        let k = key.to_owned();
        let mut i: usize = 0;
        while i < self.entries.len()
            invariant
                self.wf(),
                k@ == key@,
                0 <= i <= self.key_seq().len(),
                forall|j: int| 0 <= j < i ==> self.key_seq()[j] != key@,
            decreases self.key_seq().len() - i,
        {
            if self.entries[i].0 == k {
                return Some(i);
            }
            i += 1;
        }
        None
    }

    pub fn contains_key(&self, key: &str) -> (r: bool)
        requires
            self.wf(),
        ensures
            r == self@.contains_key(key@),
    {
        match self.position(key) {
            Some(i) => true,
            None => false,
        }
    }

    pub fn get(&self, key: &str) -> (r: Option<&V>)
        requires
            self.wf(),
        ensures
            match r {
                Some(v) => self@.contains_key(key@) && *v == self@[key@],
                None => !self@.contains_key(key@),
            },
    {
        match self.position(key) {
            Some(i) => Some(&self.entries[i].1),
            None => None,
        }
    }

    /// Sets the value of `key`, returning the value it replaced.
    pub fn insert(&mut self, key: String, value: V) -> (r: Option<V>)
        requires
            old(self).wf(),
        ensures
            final(self).wf(),
            final(self)@ == old(self)@.insert(key@, value),
            r == if old(self)@.contains_key(key@) { Some(old(self)@[key@]) } else { None::<V> },
    {
        let ghost k = key@;
        let ghost before = self.entries@;
        match self.position(key.as_str()) {
            Some(i) => {
                let ghost replaced = self.entries@[i as int].1;
                let mut old_entry = (key, value);
                std::mem::swap(&mut self.entries[i], &mut old_entry);
                self.contents = Ghost(self.contents@.insert(k, value));
                proof {
                    assert(self.entries@ == before.update(i as int, (key, value)));
                    assert(self.key_seq() =~= old(self).key_seq());
                    assert(old(self)@.contains_key(k));
                    assert forall|j: int| 0 <= j < self.key_seq().len() implies {
                        &&& self@.contains_key(#[trigger] self.key_seq()[j])
                        &&& self@[self.key_seq()[j]] == self.value_seq()[j]
                    } by {
                        if j != i {
                            assert(old(self).key_seq()[j] != old(self).key_seq()[i as int]);
                        }
                    }
                    assert forall|k2: Seq<char>| #[trigger] self@.contains_key(k2) implies self.key_seq().contains(k2) by {
                        if k2 == k {
                            assert(self.key_seq()[i as int] == k);
                        } else {
                            assert(old(self)@.contains_key(k2));
                        }
                    }
                }
                Some(old_entry.1)
            },
            None => {
                self.entries.push((key, value));
                self.contents = Ghost(self.contents@.insert(k, value));
                proof {
                    let n = before.len() as int;
                    assert(self.entries@ == before.push((key, value)));
                    assert(self.key_seq() =~= old(self).key_seq().push(k));
                    assert(self.value_seq() =~= old(self).value_seq().push(value));
                    assert(!old(self).key_seq().contains(k));
                    assert forall|j: int| 0 <= j < self.key_seq().len() implies {
                        &&& self@.contains_key(#[trigger] self.key_seq()[j])
                        &&& self@[self.key_seq()[j]] == self.value_seq()[j]
                    } by {
                        if j < n {
                            assert(old(self).key_seq()[j] != k);
                            assert(old(self)@.contains_key(old(self).key_seq()[j]));
                        }
                    }
                    assert forall|k2: Seq<char>| #[trigger] self@.contains_key(k2) implies self.key_seq().contains(k2) by {
                        if k2 == k {
                            assert(self.key_seq()[n] == k);
                        } else {
                            assert(old(self)@.contains_key(k2));
                            let j = choose|j: int| 0 <= j < n && old(self).key_seq()[j] == k2;
                            assert(self.key_seq()[j] == k2);
                        }
                    }
                    assert(self.key_seq().no_duplicates()) by {
                        assert forall|a: int, b: int| 0 <= a < b < self.key_seq().len() implies self.key_seq()[a] != self.key_seq()[b] by {
                            if b == n {
                                assert(old(self).key_seq()[a] == self.key_seq()[a]);
                            }
                        }
                    }
                }
                None
            },
        }
    }

    /// Takes `key` out of the table, returning its value. A key that the
    /// table does not hold leaves it unchanged.
    pub fn remove(&mut self, key: &str) -> (r: Option<V>)
        requires
            old(self).wf(),
        ensures
            final(self).wf(),
            final(self)@ == old(self)@.remove(key@),
            r == if old(self)@.contains_key(key@) { Some(old(self)@[key@]) } else { None::<V> },
    {
        let ghost before = self.entries@;
        match self.position(key) {
            Some(i) => {
                let entry = self.entries.remove(i);
                self.contents = Ghost(self.contents@.remove(key@));
                proof {
                    let ok = old(self).key_seq();
                    let nk = self.key_seq();
                    let ii = i as int;
                    assert(self.entries@ == before.remove(ii));
                    assert(nk =~= ok.remove(ii));
                    assert(self.value_seq() =~= old(self).value_seq().remove(ii));
                    assert(old(self)@.contains_key(key@));
                    assert(nk.no_duplicates()) by {
                        assert forall|a: int, b: int| 0 <= a < b < nk.len() implies nk[a] != nk[b] by {
                            let a2 = if a < ii { a } else { a + 1 };
                            let b2 = if b < ii { b } else { b + 1 };
                            assert(ok[a2] == nk[a]);
                            assert(ok[b2] == nk[b]);
                        }
                    }
                    assert forall|j: int| 0 <= j < nk.len() implies {
                        &&& self@.contains_key(#[trigger] nk[j])
                        &&& self@[nk[j]] == self.value_seq()[j]
                    } by {
                        let j2 = if j < ii { j } else { j + 1 };
                        assert(ok[j2] == nk[j]);
                        assert(j2 != ii);
                        assert(old(self)@.contains_key(ok[j2]));
                    }
                    assert forall|k2: Seq<char>| #[trigger] self@.contains_key(k2) implies nk.contains(k2) by {
                        assert(old(self)@.contains_key(k2));
                        let j = choose|j: int| 0 <= j < ok.len() && ok[j] == k2;
                        assert(j != ii);
                        if j < ii {
                            assert(nk[j] == k2);
                        } else {
                            assert(nk[j - 1] == k2);
                        }
                    }
                }
                Some(entry.1)
            },
            None => {
                proof {
                    assert(self.contents@ =~= self.contents@.remove(key@));
                }
                None
            },
        }
    }

    /// The keys, in the table's order.
    pub fn keys(&self) -> (r: Vec<String>)
        requires
            self.wf(),
        ensures
            texts(r@) == self.key_seq(),
    {
        let mut r: Vec<String> = Vec::new();
        let mut i: usize = 0;
        while i < self.entries.len()
            invariant
                self.wf(),
                0 <= i <= self.key_seq().len(),
                r@.len() == i,
                texts(r@) == self.key_seq().take(i as int),
            decreases self.key_seq().len() - i,
        {
            let ghost prev = r@;
            r.push(self.entries[i].0.clone());
            proof {
                assert(r@ == prev.push(self.entries@[i as int].0));
                assert forall|j: int| 0 <= j < i + 1 implies #[trigger] texts(r@)[j] == self.key_seq().take(i + 1)[j] by {
                    if j < i {
                        assert(texts(prev)[j] == self.key_seq().take(i as int)[j]);
                        assert(r@[j] == prev[j]);
                    } else {
                        assert(r@[j] == self.entries@[j].0);
                    }
                }
                assert(texts(r@) =~= self.key_seq().take(i + 1));
            }
            i += 1;
        }
        proof {
            assert(self.key_seq().take(i as int) =~= self.key_seq());
        }
        r
    }
}

} // verus!
