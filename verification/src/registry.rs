use vstd::prelude::*;
use vstd::hash_map::StringHashMap;

verus! {

/// A table from string keys to values of any type, which can also list its keys.
/// Each entry sits in a slot of `slots` together with its key; `index` finds the slot.
pub struct Registry<V> {
    index: StringHashMap<usize>,
    slots: Vec<Option<(String, V)>>,
}

impl<V> Registry<V> {
    /// The entries, key to value.
    pub closed spec fn contents(&self) -> Map<Seq<char>, V> {
        Map::new(
            |k: Seq<char>| self.index@.contains_key(k),
            |k: Seq<char>| self.slots@[self.index@[k] as int]->Some_0.1,
        )
    }

    /// Slot `i` holds an entry with key `k`.
    pub closed spec fn slot_holds(&self, i: int, k: Seq<char>) -> bool {
        self.slots@[i] is Some && self.slots@[i]->Some_0.0@ == k
    }

    /// Every indexed key names a slot that holds it, and every occupied slot is indexed under
    /// its key.
    pub closed spec fn wf(&self) -> bool {
        &&& forall|k: Seq<char>| #[trigger]
            self.index@.contains_key(k) ==> self.index@[k] < self.slots@.len() && self.slot_holds(self.index@[k] as int, k)
        &&& forall|i: int| #![trigger self.slots@[i]]
            0 <= i < self.slots@.len() && self.slots@[i] is Some ==> self.index@.contains_key(
                self.slots@[i]->Some_0.0@,
            ) && self.index@[self.slots@[i]->Some_0.0@] == i
    }

    /// An empty table.
    pub fn new() -> (r: Self)
        ensures
            r.wf(),
            r.contents() =~= Map::empty(),
    {
        Registry { index: StringHashMap::new(), slots: Vec::new() }
    }

    /// Whether `key` has an entry.
    pub fn contains_key(&self, key: &str) -> (b: bool)
        ensures
            b == self.contents().contains_key(key@),
    {
        self.index.contains_key(key)
    }

    /// The value stored under `key`, if any.
    pub fn get(&self, key: &str) -> (r: Option<&V>)
        requires
            self.wf(),
        ensures
            r matches Some(v) ==> self.contents().contains_key(key@) && *v == self.contents()[key@],
            r is None ==> !self.contents().contains_key(key@),
    {
        match self.index.get(key) {
            None => None,
            Some(i) => {
                let i = *i;
                match &self.slots[i] {
                    Some(e) => Some(&e.1),
                    None => None,
                }
            },
        }
    }

    /// Stores `value` under `key`, replacing an earlier value.
    pub fn insert(&mut self, key: String, value: V)
        requires
            old(self).wf(),
        ensures
            final(self).wf(),
            final(self).contents() == old(self).contents().insert(key@, value),
    {
        match self.index.get(key.as_str()) {
            Some(i) => {
                let i = *i;
                let mut entry = Some((key, value));
                std::mem::swap(&mut entry, &mut self.slots[i]);
                proof {
                    assert forall|j: int| #![trigger self.slots@[j]]
                        0 <= j < self.slots@.len() && self.slots@[j] is Some implies self.index@.contains_key(
                            self.slots@[j]->Some_0.0@,
                        ) && self.index@[self.slots@[j]->Some_0.0@] == j by {
                        if j != i {
                            assert(old(self).slots@[j] == self.slots@[j]);
                        }
                    }
                }
            },
            None => {
                let i = self.slots.len();
                let k2 = key.clone();
                self.slots.push(Some((key, value)));
                self.index.insert(k2, i);
                proof {
                    assert forall|j: int| #![trigger self.slots@[j]]
                        0 <= j < self.slots@.len() && self.slots@[j] is Some implies self.index@.contains_key(
                            self.slots@[j]->Some_0.0@,
                        ) && self.index@[self.slots@[j]->Some_0.0@] == j by {
                        if j < i {
                            assert(old(self).slots@[j] == self.slots@[j]);
                        }
                    }
                    assert forall|k: Seq<char>| #[trigger] self.index@.contains_key(k) implies self.index@[k]
                        < self.slots@.len() && self.slot_holds(self.index@[k] as int, k) by {
                        if k != k2@ {
                            assert(old(self).index@.contains_key(k));
                            assert(old(self).slots@[old(self).index@[k] as int] == self.slots@[self.index@[k] as int]);
                        }
                    }
                }
            },
        }
        proof {
            assert forall|k: Seq<char>| #[trigger] self.contents().contains_key(k) implies self.contents()[k]
                == old(self).contents().insert(key@, value)[k] by {
                if k != key@ {
                    assert(old(self).index@.contains_key(k));
                    assert(old(self).slots@[old(self).index@[k] as int] == self.slots@[self.index@[k] as int]);
                }
            }
            assert(self.contents() =~= old(self).contents().insert(key@, value));
        }
    }

    /// Takes the value stored under `key` out of the table.
    pub fn remove(&mut self, key: &str) -> (r: Option<V>)
        requires
            old(self).wf(),
        ensures
            final(self).wf(),
            final(self).contents() == old(self).contents().remove(key@),
            r matches Some(v) ==> old(self).contents().contains_key(key@) && v == old(self).contents()[key@],
            r is None ==> !old(self).contents().contains_key(key@),
    {
        match self.index.get(key) {
            None => {
                proof {
                    assert(self.contents() =~= old(self).contents().remove(key@));
                }
                None
            },
            Some(i) => {
                let i = *i;
                let mut entry: Option<(String, V)> = None;
                std::mem::swap(&mut entry, &mut self.slots[i]);
                self.index.remove(key);
                proof {
                    assert forall|j: int| #![trigger self.slots@[j]]
                        0 <= j < self.slots@.len() && self.slots@[j] is Some implies self.index@.contains_key(
                            self.slots@[j]->Some_0.0@,
                        ) && self.index@[self.slots@[j]->Some_0.0@] == j by {
                        assert(old(self).slots@[j] == self.slots@[j]);
                    }
                    assert forall|k: Seq<char>| #[trigger] self.index@.contains_key(k) implies self.index@[k]
                        < self.slots@.len() && self.slot_holds(self.index@[k] as int, k) by {
                        assert(old(self).index@.contains_key(k));
                        assert(old(self).index@[k] != i);
                        assert(old(self).slots@[old(self).index@[k] as int] == self.slots@[self.index@[k] as int]);
                    }
                    assert forall|k: Seq<char>| #[trigger] self.contents().contains_key(k) implies self.contents()[k]
                        == old(self).contents()[k] by {
                        assert(old(self).index@[k] != i);
                    }
                    assert(self.contents() =~= old(self).contents().remove(key@));
                }
                match entry {
                    Some(e) => Some(e.1),
                    None => None,
                }
            },
        }
    }

    /// Puts `value` in place of the value stored under `key` and hands the old one back.
    pub fn replace(&mut self, key: &str, value: V) -> (prev: V)
        requires
            old(self).wf(),
            old(self).contents().contains_key(key@),
        ensures
            final(self).wf(),
            final(self).contents() == old(self).contents().insert(key@, value),
            prev == old(self).contents()[key@],
    {
        let i = *self.index.get(key).unwrap();
        let k = match &self.slots[i] {
            Some(e) => e.0.clone(),
            None => String::new(),
        };
        let mut entry = Some((k, value));
        std::mem::swap(&mut entry, &mut self.slots[i]);
        proof {
            assert forall|j: int| #![trigger self.slots@[j]]
                0 <= j < self.slots@.len() && self.slots@[j] is Some implies self.index@.contains_key(
                    self.slots@[j]->Some_0.0@,
                ) && self.index@[self.slots@[j]->Some_0.0@] == j by {
                if j != i {
                    assert(old(self).slots@[j] == self.slots@[j]);
                }
            }
            assert forall|k2: Seq<char>| #[trigger] self.contents().contains_key(k2) implies self.contents()[k2]
                == old(self).contents().insert(key@, value)[k2] by {
                if k2 != key@ {
                    assert(old(self).slots@[old(self).index@[k2] as int] == self.slots@[self.index@[k2] as int]);
                }
            }
            assert(self.contents() =~= old(self).contents().insert(key@, value));
        }
        entry.unwrap().1
    }

    /// Empties the table.
    pub fn clear(&mut self)
        ensures
            final(self).wf(),
            final(self).contents() =~= Map::empty(),
    {
        self.index.clear();
        self.slots = Vec::new();
    }

    /// The keys of the table, each once, in slot order.
    pub fn keys(&self) -> (ks: Vec<String>)
        requires
            self.wf(),
        ensures
            ks.deep_view().no_duplicates(),
            forall|k: Seq<char>| #[trigger] self.contents().contains_key(k) <==> ks.deep_view().contains(k),
    {
        let mut ks: Vec<String> = Vec::new();
        let n = self.slots.len();
        let mut i: usize = 0;
        while i < n
            invariant
                self.wf(),
                n == self.slots@.len(),
                i <= n,
                ks.deep_view().no_duplicates(),
                forall|k: Seq<char>| #[trigger] ks.deep_view().contains(k) ==> self.index@.contains_key(k)
                    && self.index@[k] < i,
                forall|k: Seq<char>| #[trigger] self.index@.contains_key(k) && self.index@[k] < i
                    ==> ks.deep_view().contains(k),
            decreases n - i,
        {
            let ghost before = ks.deep_view();
            match &self.slots[i] {
                Some(e) => {
                    proof {
                        assert(self.slots@[i as int] is Some);
                        assert(self.slots@[i as int]->Some_0.0@ == e.0@);
                        assert(self.index@.contains_key(e.0@) && self.index@[e.0@] == i);
                        assert(!before.contains(e.0@));
                    }
                    ks.push(e.0.clone());
                    proof {
                        assert(ks.deep_view() =~= before.push(e.0@));
                        assert forall|a: int, b: int|
                            0 <= a < ks.deep_view().len() && 0 <= b < ks.deep_view().len() && a != b
                            implies ks.deep_view()[a] != ks.deep_view()[b] by {
                            if a < before.len() && b < before.len() {
                            } else if a == before.len() {
                                assert(before.contains(before[b]));
                            } else {
                                assert(before.contains(before[a]));
                            }
                        }
                        assert forall|k: Seq<char>| #[trigger] ks.deep_view().contains(k) implies self.index@.contains_key(k)
                            && self.index@[k] < i + 1 by {
                            if k != e.0@ {
                                let a = choose|a: int| 0 <= a < ks.deep_view().len() && ks.deep_view()[a] == k;
                                assert(a != before.len());
                                assert(before[a] == k);
                                assert(before.contains(k));
                            }
                        }
                        assert forall|k: Seq<char>| #[trigger] self.index@.contains_key(k) && self.index@[k] < i + 1
                            implies ks.deep_view().contains(k) by {
                            if self.index@[k] < i {
                                let a = choose|a: int| 0 <= a < before.len() && before[a] == k;
                                assert(ks.deep_view()[a] == k);
                            } else {
                                assert(ks.deep_view()[before.len() as int] == k);
                            }
                        }
                    }
                },
                None => {
                    proof {
                        assert forall|k: Seq<char>| #[trigger] self.index@.contains_key(k) && self.index@[k] < i + 1
                            implies ks.deep_view().contains(k) by {
                            if self.index@[k] == i {
                                assert(self.slots@[i as int] is Some);
                            }
                        }
                    }
                },
            }
            i = i + 1;
        }
        ks
    }
}

} // verus!
