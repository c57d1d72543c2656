//! A table keyed by strings: the pending calls and open streams of a client
//! (keyed by request id), its channels, and the handlers of a channel.
use vstd::prelude::*;
use crate::text::str_eq;

verus! {

/// Values stored under distinct string keys.
pub struct KeyedTable<T> {
    entries: Vec<(String, T)>,
}

/// No two entries share a key.
pub open spec fn keys_distinct<T>(es: Seq<(String, T)>) -> bool {
    forall|i: int, j: int| 0 <= i < j < es.len() ==> (#[trigger] es[i]).0@ != (#[trigger] es[j]).0@
}

/// Some entry has key `k`.
pub open spec fn has_key<T>(es: Seq<(String, T)>, k: Seq<char>) -> bool {
    exists|i: int| 0 <= i < es.len() && (#[trigger] es[i]).0@ == k
}

/// The entries as a map from key to value.
pub open spec fn entries_map<T>(es: Seq<(String, T)>) -> Map<Seq<char>, T> {
    Map::new(
        |k: Seq<char>| has_key(es, k),
        |k: Seq<char>| es[choose|i: int| 0 <= i < es.len() && (#[trigger] es[i]).0@ == k].1,
    )
}

/// With distinct keys, the entry at `i` is the one the map holds.
proof fn lemma_entries_map_at<T>(es: Seq<(String, T)>, i: int)
    requires
        keys_distinct(es),
        0 <= i < es.len(),
    ensures
        entries_map(es).contains_key(es[i].0@),
        entries_map(es)[es[i].0@] == es[i].1,
{
    let k = es[i].0@;
    assert(has_key(es, k));
    let j = choose|j: int| 0 <= j < es.len() && (#[trigger] es[j]).0@ == k;
    if j < i {
        assert(es[j].0@ != es[i].0@);
    } else if j > i {
        assert(es[i].0@ != es[j].0@);
    }
}

impl<T> View for KeyedTable<T> {
    type V = Map<Seq<char>, T>;

    closed spec fn view(&self) -> Map<Seq<char>, T> {
        entries_map(self.entries@)
    }
}

impl<T> KeyedTable<T> {
    /// Keys are distinct.
    #[verifier::type_invariant]
    closed spec fn wf(self) -> bool {
        keys_distinct(self.entries@)
    }

    /// An empty table.
    pub fn new() -> (t: KeyedTable<T>)
        ensures
            t@ == Map::<Seq<char>, T>::empty(),
    {
        let t = KeyedTable { entries: Vec::new() };
        assert(t@ =~= Map::<Seq<char>, T>::empty());
        t
    }

    /// The number of entries.
    pub fn len(&self) -> (n: usize)
        ensures
            n == self@.dom().len(),
    {
        proof {
            use_type_invariant(self);
            self.lemma_len();
        }
        self.entries.len()
    }

    proof fn lemma_len(&self)
        requires
            self.wf(),
        ensures
            self@.dom().len() == self.entries@.len(),
    {
        let es = self.entries@;
        let keys = es.map_values(|e: (String, T)| e.0@);
        assert forall|a: int, b: int| 0 <= a < keys.len() && 0 <= b < keys.len() && a != b implies keys[a]
            != keys[b] by {
            if a < b {
                assert(es[a].0@ != es[b].0@);
            } else {
                assert(es[b].0@ != es[a].0@);
            }
        }
        assert(self@.dom() =~= keys.to_set()) by {
            assert forall|k: Seq<char>| self@.dom().contains(k) <==> keys.to_set().contains(k) by {
                if has_key(es, k) {
                    let i = choose|i: int| 0 <= i < es.len() && (#[trigger] es[i]).0@ == k;
                    assert(keys[i] == k);
                }
                if keys.to_set().contains(k) {
                    let i = choose|i: int| 0 <= i < keys.len() && keys[i] == k;
                    assert(es[i].0@ == k);
                }
            }
        }
        keys.unique_seq_to_set();
    }

    /// The position of the entry with key `key`.
    fn position(&self, key: &str) -> (r: Option<usize>)
        ensures
            match r {
                Some(i) => i < self.entries@.len() && self.entries@[i as int].0@ == key@,
                None => !has_key(self.entries@, key@),
            },
    {
        let mut i: usize = 0;
        while i < self.entries.len()
            invariant
                i <= self.entries@.len(),
                forall|j: int| 0 <= j < i ==> (#[trigger] self.entries@[j]).0@ != key@,
            decreases self.entries@.len() - i,
        {
            if str_eq(self.entries[i].0.as_str(), key) {
                return Some(i);
            }
            i = i + 1;
        }
        None
    }

    /// Whether a value is stored under `key`.
    pub fn contains_key(&self, key: &str) -> (r: bool)
        ensures
            r == self@.contains_key(key@),
    {
        self.position(key).is_some()
    }

    /// The value stored under `key`.
    pub fn get(&self, key: &str) -> (r: Option<&T>)
        ensures
            match r {
                Some(v) => self@.contains_key(key@) && self@[key@] == *v,
                None => !self@.contains_key(key@),
            },
    {
        proof {
            use_type_invariant(self);
        }
        match self.position(key) {
            Some(i) => {
                proof {
                    lemma_entries_map_at(self.entries@, i as int);
                }
                Some(&self.entries[i].1)
            },
            None => None,
        }
    }

    /// Stores `value` under `key` and returns the value the key had.
    pub fn insert(&mut self, key: String, value: T) -> (prev: Option<T>)
        ensures
            final(self)@ == old(self)@.insert(key@, value),
            prev == (if old(self)@.contains_key(key@) {
                Some(old(self)@[key@])
            } else {
                None
            }),
    {
        proof {
            use_type_invariant(&*self);
        }
        let found = self.position(key.as_str());
        let mut entries: Vec<(String, T)> = Vec::new();
        std::mem::swap(&mut entries, &mut self.entries);
        let ghost es = entries@;
        let ghost k = key@;
        match found {
            Some(i) => {
                proof {
                    lemma_entries_map_at(es, i as int);
                }
                let (_, old_value) = entries.remove(i);
                entries.insert(i, (key, value));
                let ghost ns = entries@;
                assert(ns =~= es.update(i as int, (ns[i as int].0, value)));
                assert(keys_distinct(ns)) by {
                    assert forall|a: int, b: int| 0 <= a < b < ns.len() implies (#[trigger] ns[a]).0@
                        != (#[trigger] ns[b]).0@ by {
                        assert(es[a].0@ != es[b].0@);
                    }
                }
                proof {
                    lemma_entries_map_at(ns, i as int);
                    assert(entries_map(ns) =~= entries_map(es).insert(k, value)) by {
                        assert forall|q: Seq<char>| #[trigger] entries_map(ns).contains_key(q) == entries_map(
                            es,
                        ).insert(k, value).contains_key(q) by {
                            if has_key(es, q) {
                                let j = choose|j: int| 0 <= j < es.len() && (#[trigger] es[j]).0@ == q;
                                assert(ns[j].0@ == q);
                            }
                            if has_key(ns, q) {
                                let j = choose|j: int| 0 <= j < ns.len() && (#[trigger] ns[j]).0@ == q;
                                assert(es[j].0@ == q);
                            }
                        }
                        assert forall|q: Seq<char>| #[trigger] entries_map(ns).contains_key(q) implies entries_map(
                            ns,
                        )[q] == entries_map(es).insert(k, value)[q] by {
                            let j = choose|j: int| 0 <= j < ns.len() && (#[trigger] ns[j]).0@ == q;
                            lemma_entries_map_at(ns, j);
                            if j != i {
                                lemma_entries_map_at(es, j);
                            }
                        }
                    }
                }
                self.entries = entries;
                Some(old_value)
            },
            None => {
                entries.push((key, value));
                let ghost ns = entries@;
                assert(keys_distinct(ns)) by {
                    assert forall|a: int, b: int| 0 <= a < b < ns.len() implies (#[trigger] ns[a]).0@
                        != (#[trigger] ns[b]).0@ by {
                        if b < es.len() {
                            assert(es[a].0@ != es[b].0@);
                        } else {
                            assert(es[a] == ns[a]);
                        }
                    }
                }
                proof {
                    lemma_entries_map_at(ns, es.len() as int);
                    assert(entries_map(ns) =~= entries_map(es).insert(k, value)) by {
                        assert forall|q: Seq<char>| #[trigger] entries_map(ns).contains_key(q) == entries_map(
                            es,
                        ).insert(k, value).contains_key(q) by {
                            if has_key(es, q) {
                                let j = choose|j: int| 0 <= j < es.len() && (#[trigger] es[j]).0@ == q;
                                assert(ns[j].0@ == q);
                            }
                            if has_key(ns, q) {
                                let j = choose|j: int| 0 <= j < ns.len() && (#[trigger] ns[j]).0@ == q;
                                if j < es.len() {
                                    assert(es[j].0@ == q);
                                }
                            }
                        }
                        assert forall|q: Seq<char>| #[trigger] entries_map(ns).contains_key(q) implies entries_map(
                            ns,
                        )[q] == entries_map(es).insert(k, value)[q] by {
                            let j = choose|j: int| 0 <= j < ns.len() && (#[trigger] ns[j]).0@ == q;
                            lemma_entries_map_at(ns, j);
                            if j < es.len() {
                                assert(es[j] == ns[j]);
                                lemma_entries_map_at(es, j);
                            }
                        }
                    }
                }
                self.entries = entries;
                None
            },
        }
    }

    /// Takes out the value stored under `key`.
    pub fn remove(&mut self, key: &str) -> (r: Option<T>)
        ensures
            final(self)@ == old(self)@.remove(key@),
            r == (if old(self)@.contains_key(key@) {
                Some(old(self)@[key@])
            } else {
                None
            }),
    {
        proof {
            use_type_invariant(&*self);
        }
        let found = self.position(key);
        match found {
            Some(i) => {
                let mut entries: Vec<(String, T)> = Vec::new();
                std::mem::swap(&mut entries, &mut self.entries);
                let ghost es = entries@;
                let ghost k = key@;
                proof {
                    lemma_entries_map_at(es, i as int);
                }
                let (_, value) = entries.remove(i);
                let ghost ns = entries@;
                assert(keys_distinct(ns)) by {
                    assert forall|a: int, b: int| 0 <= a < b < ns.len() implies (#[trigger] ns[a]).0@
                        != (#[trigger] ns[b]).0@ by {
                        if a < i && b < i {
                            assert(es[a].0@ != es[b].0@);
                        } else if a < i {
                            assert(es[a].0@ != es[b + 1].0@);
                        } else {
                            assert(es[a + 1].0@ != es[b + 1].0@);
                        }
                    }
                }
                proof {
                    assert(entries_map(ns) =~= entries_map(es).remove(k)) by {
                        assert forall|q: Seq<char>| #[trigger] entries_map(ns).contains_key(q) == entries_map(
                            es,
                        ).remove(k).contains_key(q) by {
                            if has_key(es, q) && q != k {
                                let j = choose|j: int| 0 <= j < es.len() && (#[trigger] es[j]).0@ == q;
                                if j < i {
                                    assert(ns[j].0@ == q);
                                } else {
                                    assert(j != i);
                                    assert(ns[j - 1].0@ == q);
                                }
                            }
                            if has_key(ns, q) {
                                let j = choose|j: int| 0 <= j < ns.len() && (#[trigger] ns[j]).0@ == q;
                                if j < i {
                                    assert(es[j].0@ == q);
                                    assert(es[j].0@ != es[i as int].0@);
                                } else {
                                    assert(es[j + 1].0@ == q);
                                    assert(es[i as int].0@ != es[j + 1].0@);
                                }
                            }
                        }
                        assert forall|q: Seq<char>| #[trigger] entries_map(ns).contains_key(q) implies entries_map(
                            ns,
                        )[q] == entries_map(es).remove(k)[q] by {
                            let j = choose|j: int| 0 <= j < ns.len() && (#[trigger] ns[j]).0@ == q;
                            lemma_entries_map_at(ns, j);
                            if j < i {
                                assert(es[j] == ns[j]);
                                lemma_entries_map_at(es, j);
                            } else {
                                assert(es[j + 1] == ns[j]);
                                lemma_entries_map_at(es, j + 1);
                            }
                        }
                    }
                }
                self.entries = entries;
                Some(value)
            },
            None => {
                proof {
                    assert(self@ =~= self@.remove(key@));
                }
                None
            },
        }
    }
}

} // verus!
