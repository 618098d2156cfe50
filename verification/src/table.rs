//! A table from link strings to values: the per-download registers of the
//! library are kept in it.  Keys are compared as character sequences and no
//! key occurs twice, so the table is a finite map.

use vstd::prelude::*;

verus! {

/// Whether position `i` of `entries` holds key `k`.
pub open spec fn holds_key<V>(entries: Seq<(String, V)>, i: int, k: Seq<char>) -> bool {
    0 <= i < entries.len() && entries[i].0@ == k
}

/// A map keyed by strings, kept as a list of distinct keys with their
/// values.
pub struct KeyedTable<V> {
    entries: Vec<(String, V)>,
}

impl<V> View for KeyedTable<V> {
    type V = Map<Seq<char>, V>;

    open spec fn view(&self) -> Map<Seq<char>, V> {
        self.map()
    }
}

impl<V> KeyedTable<V> {
    /// No key occurs twice.
    pub closed spec fn wf(&self) -> bool {
        forall|i: int, j: int|
            0 <= i < self.entries@.len() && 0 <= j < self.entries@.len() && i != j
                ==> #[trigger] self.entries@[i].0@ != #[trigger] self.entries@[j].0@
    }

    /// The position of key `k`, for a key the table holds.
    pub closed spec fn pos(&self, k: Seq<char>) -> int {
        choose|i: int| holds_key(self.entries@, i, k)
    }

    /// The table as a map from keys to values.
    pub closed spec fn map(&self) -> Map<Seq<char>, V> {
        Map::new(
            |k: Seq<char>| exists|i: int| holds_key(self.entries@, i, k),
            |k: Seq<char>| self.entries@[self.pos(k)].1,
        )
    }

    proof fn lemma_pos(&self, i: int)
        requires
            self.wf(),
            0 <= i < self.entries@.len(),
        ensures
            self.pos(self.entries@[i].0@) == i,
            self.map().contains_key(self.entries@[i].0@),
            self.map()[self.entries@[i].0@] == self.entries@[i].1,
    {
        let k = self.entries@[i].0@;
        assert(holds_key(self.entries@, i, k));
        let p = self.pos(k);
        assert(holds_key(self.entries@, p, k));
    }

    /// An empty table.
    pub fn new() -> (t: Self)
        ensures
            t.wf(),
            t.map() == Map::<Seq<char>, V>::empty(),
    {
        let t = KeyedTable { entries: Vec::new() };
        assert(t.map() =~= Map::<Seq<char>, V>::empty());
        t
    }

    /// The number of keys.
    pub fn len(&self) -> (n: usize)
        requires
            self.wf(),
        ensures
            n == self.map().dom().len(),
    {
        proof {
            self.lemma_dom_len();
        }
        self.entries.len()
    }

    proof fn lemma_dom_len(&self)
        requires
            self.wf(),
        ensures
            self.map().dom().finite(),
            self.map().dom().len() == self.entries@.len(),
        decreases self.entries@.len(),
    {
        let keys = self.entries@.map_values(|e: (String, V)| e.0@);
        assert forall|i: int, j: int| 0 <= i < keys.len() && 0 <= j < keys.len() && i != j
            implies keys[i] != keys[j] by {
            assert(self.entries@[i].0@ != self.entries@[j].0@);
        }
        assert(keys.no_duplicates());
        keys.unique_seq_to_set();
        assert forall|k: Seq<char>| self.map().dom().contains(k) <==> keys.to_set().contains(k) by {
            if self.map().dom().contains(k) {
                let i = choose|i: int| holds_key(self.entries@, i, k);
                assert(keys[i] == k);
            }
            if keys.to_set().contains(k) {
                let i = choose|i: int| 0 <= i < keys.len() && keys[i] == k;
                assert(holds_key(self.entries@, i, k));
            }
        }
        assert(self.map().dom() =~= keys.to_set());
    }

    /// The position of `key` in the list, if the table holds it.
    fn find(&self, key: &str) -> (r: Option<usize>)
        requires
            self.wf(),
        ensures
            match r {
                Some(i) => i < self.entries@.len() && self.entries@[i as int].0@ == key@
                    && self.pos(key@) == i,
                None => !self.map().contains_key(key@),
            },
    {
        let k = String::from_str(key);
        let mut i: usize = 0;
        while i < self.entries.len()
            invariant
                self.wf(),
                k@ == key@,
                i <= self.entries@.len(),
                forall|j: int| 0 <= j < i ==> self.entries@[j].0@ != key@,
            decreases self.entries@.len() - i,
        {
            if self.entries[i].0 == k {
                proof {
                    self.lemma_pos(i as int);
                }
                return Some(i);
            }
            i = i + 1;
        }
        None
    }

    /// The value stored under `key`, if any.
    pub fn get(&self, key: &str) -> (r: Option<&V>)
        requires
            self.wf(),
        ensures
            match r {
                Some(v) => self.map().contains_key(key@) && self.map()[key@] == *v,
                None => !self.map().contains_key(key@),
            },
    {
        match self.find(key) {
            Some(i) => {
                proof {
                    self.lemma_pos(i as int);
                }
                Some(&self.entries[i].1)
            },
            None => None,
        }
    }

    /// Stores `value` under `key`, replacing what was stored there.
    pub fn insert(&mut self, key: &str, value: V)
        requires
            old(self).wf(),
        ensures
            final(self).wf(),
            final(self).map() == old(self).map().insert(key@, value),
    {
        let ghost old_map = self.map();
        let ghost old_entries = self.entries@;
        match self.find(key) {
            Some(i) => {
                let k = String::from_str(key);
                self.entries.set(i, (k, value));
                proof {
                    assert(self.wf());
                    self.lemma_pos(i as int);
                    assert forall|kk: Seq<char>| #[trigger] self.map().contains_key(kk)
                        == old_map.insert(key@, value).contains_key(kk) by {
                        if old_map.contains_key(kk) && kk != key@ {
                            let j = choose|j: int| holds_key(old_entries, j, kk);
                            assert(holds_key(self.entries@, j, kk));
                        }
                        if self.map().contains_key(kk) && kk != key@ {
                            let j = choose|j: int| holds_key(self.entries@, j, kk);
                            assert(holds_key(old_entries, j, kk));
                        }
                    }
                    assert forall|kk: Seq<char>| #[trigger] self.map().contains_key(kk)
                        implies self.map()[kk] == old_map.insert(key@, value)[kk] by {
                        if kk != key@ {
                            let j = choose|j: int| holds_key(self.entries@, j, kk);
                            self.lemma_pos(j);
                            assert(holds_key(old_entries, j, kk));
                            assert(old_map[kk] == old_entries[chosen_pos(old_entries, kk)].1);
                            lemma_unique_pos(old_entries, j, kk);
                        }
                    }
                    assert(self.map() =~= old_map.insert(key@, value));
                }
            },
            None => {
                let k = String::from_str(key);
                self.entries.push((k, value));
                proof {
                    let n = old_entries.len() as int;
                    assert forall|a: int, b: int|
                        0 <= a < self.entries@.len() && 0 <= b < self.entries@.len() && a != b
                        implies #[trigger] self.entries@[a].0@ != #[trigger] self.entries@[b].0@ by {
                        if a == n {
                            assert(!holds_key(old_entries, b, key@));
                        } else if b == n {
                            assert(!holds_key(old_entries, a, key@));
                        }
                    }
                    assert(self.wf());
                    self.lemma_pos(n);
                    assert forall|kk: Seq<char>| #[trigger] self.map().contains_key(kk)
                        == old_map.insert(key@, value).contains_key(kk) by {
                        if old_map.contains_key(kk) && kk != key@ {
                            let j = choose|j: int| holds_key(old_entries, j, kk);
                            assert(holds_key(self.entries@, j, kk));
                        }
                        if self.map().contains_key(kk) && kk != key@ {
                            let j = choose|j: int| holds_key(self.entries@, j, kk);
                            assert(holds_key(old_entries, j, kk));
                        }
                    }
                    assert forall|kk: Seq<char>| #[trigger] self.map().contains_key(kk)
                        implies self.map()[kk] == old_map.insert(key@, value)[kk] by {
                        if kk != key@ {
                            let j = choose|j: int| holds_key(self.entries@, j, kk);
                            self.lemma_pos(j);
                            assert(holds_key(old_entries, j, kk));
                            lemma_unique_pos(old_entries, j, kk);
                        }
                    }
                    assert(self.map() =~= old_map.insert(key@, value));
                }
            },
        }
    }

    /// Removes `key` and what was stored under it; gives back that value.
    pub fn remove(&mut self, key: &str) -> (r: Option<V>)
        requires
            old(self).wf(),
        ensures
            final(self).wf(),
            final(self).map() == old(self).map().remove(key@),
            match r {
                Some(v) => old(self).map().contains_key(key@) && old(self).map()[key@] == v,
                None => !old(self).map().contains_key(key@),
            },
    {
        let ghost old_map = self.map();
        let ghost old_entries = self.entries@;
        match self.find(key) {
            Some(i) => {
                proof {
                    self.lemma_pos(i as int);
                }
                let (_, v) = self.entries.remove(i);
                proof {
                    let ii = i as int;
                    assert forall|a: int, b: int|
                        0 <= a < self.entries@.len() && 0 <= b < self.entries@.len() && a != b
                        implies #[trigger] self.entries@[a].0@ != #[trigger] self.entries@[b].0@ by {
                        let oa = if a < ii { a } else { a + 1 };
                        let ob = if b < ii { b } else { b + 1 };
                        assert(self.entries@[a] == old_entries[oa]);
                        assert(self.entries@[b] == old_entries[ob]);
                    }
                    assert(self.wf());
                    assert forall|kk: Seq<char>| #[trigger] self.map().contains_key(kk)
                        == old_map.remove(key@).contains_key(kk) by {
                        if old_map.contains_key(kk) && kk != key@ {
                            let j = choose|j: int| holds_key(old_entries, j, kk);
                            assert(j != ii);
                            let nj = if j < ii { j } else { j - 1 };
                            assert(self.entries@[nj] == old_entries[j]);
                            assert(holds_key(self.entries@, nj, kk));
                        }
                        if self.map().contains_key(kk) {
                            let j = choose|j: int| holds_key(self.entries@, j, kk);
                            let oj = if j < ii { j } else { j + 1 };
                            assert(self.entries@[j] == old_entries[oj]);
                            assert(holds_key(old_entries, oj, kk));
                            assert(oj != ii);
                        }
                    }
                    assert forall|kk: Seq<char>| #[trigger] self.map().contains_key(kk)
                        implies self.map()[kk] == old_map.remove(key@)[kk] by {
                        let j = choose|j: int| holds_key(self.entries@, j, kk);
                        self.lemma_pos(j);
                        let oj = if j < ii { j } else { j + 1 };
                        assert(self.entries@[j] == old_entries[oj]);
                        assert(holds_key(old_entries, oj, kk));
                        lemma_unique_pos(old_entries, oj, kk);
                    }
                    assert(self.map() =~= old_map.remove(key@));
                }
                Some(v)
            },
            None => {
                assert(self.map() =~= old_map.remove(key@));
                None
            },
        }
    }
}

/// The position that `choose` picks for key `k` in a list.
pub open spec fn chosen_pos<V>(entries: Seq<(String, V)>, k: Seq<char>) -> int {
    choose|i: int| holds_key(entries, i, k)
}

proof fn lemma_unique_pos<V>(entries: Seq<(String, V)>, j: int, k: Seq<char>)
    requires
        holds_key(entries, j, k),
        forall|a: int, b: int|
            0 <= a < entries.len() && 0 <= b < entries.len() && a != b
                ==> #[trigger] entries[a].0@ != #[trigger] entries[b].0@,
    ensures
        chosen_pos(entries, k) == j,
{
    let p = chosen_pos(entries, k);
    assert(holds_key(entries, p, k));
}

} // verus!
