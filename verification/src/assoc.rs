//! A small map from text keys to values that keeps insertion order.
use vstd::prelude::*;

verus! {

/// Key-value pairs with pairwise distinct keys, in insertion order: a map
/// keyed by text whose lookups, inserts and removals are proved against
/// [`Assoc::map`].
pub struct Assoc<V> {
    entries: Vec<(String, V)>,
}

/// No two entries share a key.
pub open spec fn keys_distinct<V>(e: Seq<(String, V)>) -> bool {
    forall|i: int, j: int| 0 <= i < e.len() && 0 <= j < e.len() && i != j ==> e[i].0@ != e[j].0@
}

/// The entries as a map from key text to value.
pub open spec fn entries_map<V>(e: Seq<(String, V)>) -> Map<Seq<char>, V> {
    Map::new(
        |k: Seq<char>| exists|i: int| 0 <= i < e.len() && e[i].0@ == k,
        |k: Seq<char>| e[choose|i: int| 0 <= i < e.len() && e[i].0@ == k].1,
    )
}

proof fn lemma_map_at<V>(e: Seq<(String, V)>, i: int)
    requires
        keys_distinct(e),
        0 <= i < e.len(),
    ensures
        entries_map(e).contains_key(e[i].0@),
        entries_map(e)[e[i].0@] == e[i].1,
{
    let k = e[i].0@;
    assert(exists|j: int| 0 <= j < e.len() && e[j].0@ == k);
    let c = choose|j: int| 0 <= j < e.len() && e[j].0@ == k;
    assert(c == i);
}

impl<V> Assoc<V> {
    pub closed spec fn entries(&self) -> Seq<(String, V)> {
        self.entries@
    }

    /// No two entries share a key.
    #[verifier::type_invariant]
    spec fn keys_unique(&self) -> bool {
        keys_distinct(self.entries@)
    }

    /// The contents as a map.
    pub open spec fn map(&self) -> Map<Seq<char>, V> {
        entries_map(self.entries())
    }

    /// The keys in order.
    pub open spec fn keys(&self) -> Seq<Seq<char>> {
        self.entries().map_values(|e: (String, V)| e.0@)
    }

    pub fn new() -> (r: Self)
        ensures
            r.entries().len() == 0,
            r.map() == Map::<Seq<char>, V>::empty(),
    {
        let r = Assoc { entries: Vec::new() };
        assert(r.map() =~= Map::<Seq<char>, V>::empty());
        r
    }

    pub fn len(&self) -> (r: usize)
        ensures
            r == self.entries().len(),
    {
        self.entries.len()
    }

    /// The key of entry `i`.
    pub fn key_at(&self, i: usize) -> (r: &String)
        requires
            i < self.entries().len(),
        ensures
            *r == self.entries()[i as int].0,
    {
        &self.entries[i].0
    }

    /// The value of entry `i`.
    pub fn value_at(&self, i: usize) -> (r: &V)
        requires
            i < self.entries().len(),
        ensures
            *r == self.entries()[i as int].1,
    {
        &self.entries[i].1
    }

    /// The position of `key`, if present.
    pub fn index_of(&self, key: &String) -> (r: Option<usize>)
        ensures
            r matches Some(i) ==> i < self.entries().len() && self.entries()[i as int].0@ == key@,
            r is None <==> !self.map().contains_key(key@),
    {
        proof { use_type_invariant(self); }
        let mut i: usize = 0;
        while i < self.entries.len()
            invariant
                i <= self.entries@.len(),
                keys_distinct(self.entries@),
                forall|j: int| 0 <= j < i ==> self.entries@[j].0@ != key@,
            decreases self.entries@.len() - i,
        {
            if self.entries[i].0 == *key {
                proof { lemma_map_at(self.entries@, i as int); }
                return Some(i);
            }
            i = i + 1;
        }
        None
    }

    /// The value stored under `key`.
    pub fn get(&self, key: &String) -> (r: Option<&V>)
        ensures
            r matches Some(v) ==> self.map().contains_key(key@) && *v == self.map()[key@],
            r is None <==> !self.map().contains_key(key@),
    {
        proof { use_type_invariant(self); }
        match self.index_of(key) {
            Some(i) => {
                proof { lemma_map_at(self.entries@, i as int); }
                Some(&self.entries[i].1)
            },
            None => None,
        }
    }

    /// Stores `value` under `key`, replacing what was there (in place) or
    /// adding it at the end.
    pub fn insert(&mut self, key: String, value: V)
        ensures
            final(self).map() == old(self).map().insert(key@, value),
            old(self).map().contains_key(key@) ==> final(self).keys() == old(self).keys(),
            !old(self).map().contains_key(key@) ==> final(self).keys() == old(self).keys().push(key@),
    {
        proof { use_type_invariant(&*self); }
        let ghost old_e = self.entries@;
        let found = self.index_of(&key);
        let mut v: Vec<(String, V)> = Vec::new();
        std::mem::swap(&mut v, &mut self.entries);
        match found {
            Some(i) => {
                v.set(i, (key, value));
                proof {
                    let e = v@;
                    assert(keys_distinct(e));
                    assert forall|k: Seq<char>| #[trigger] entries_map(e).contains_key(k)
                        == old(self).map().insert(key@, value).contains_key(k) by {
                        if exists|j: int| 0 <= j < old_e.len() && old_e[j].0@ == k {
                            let j = choose|j: int| 0 <= j < old_e.len() && old_e[j].0@ == k;
                            assert(e[j].0@ == k);
                        }
                        if exists|j: int| 0 <= j < e.len() && e[j].0@ == k {
                            let j = choose|j: int| 0 <= j < e.len() && e[j].0@ == k;
                            assert(old_e[j].0@ == k);
                        }
                    }
                    assert forall|k: Seq<char>| #[trigger] entries_map(e).contains_key(k) implies
                        entries_map(e)[k] == old(self).map().insert(key@, value)[k] by {
                        let j = choose|j: int| 0 <= j < e.len() && e[j].0@ == k;
                        lemma_map_at(e, j);
                        if k != key@ {
                            lemma_map_at(old_e, j);
                        }
                    }
                    assert(entries_map(e) =~= old(self).map().insert(key@, value));
                    assert(e.map_values(|x: (String, V)| x.0@) =~= old(self).keys());
                }
            },
            None => {
                v.push((key, value));
                proof {
                    let e = v@;
                    assert(keys_distinct(e));
                    assert forall|k: Seq<char>| #[trigger] entries_map(e).contains_key(k)
                        == old(self).map().insert(key@, value).contains_key(k) by {
                        if exists|j: int| 0 <= j < old_e.len() && old_e[j].0@ == k {
                            let j = choose|j: int| 0 <= j < old_e.len() && old_e[j].0@ == k;
                            assert(e[j].0@ == k);
                        }
                        if k == key@ {
                            assert(e[old_e.len() as int].0@ == k);
                        }
                        if exists|j: int| 0 <= j < e.len() && e[j].0@ == k {
                            let j = choose|j: int| 0 <= j < e.len() && e[j].0@ == k;
                            if j < old_e.len() {
                                assert(old_e[j].0@ == k);
                            }
                        }
                    }
                    assert forall|k: Seq<char>| #[trigger] entries_map(e).contains_key(k) implies
                        entries_map(e)[k] == old(self).map().insert(key@, value)[k] by {
                        let j = choose|j: int| 0 <= j < e.len() && e[j].0@ == k;
                        lemma_map_at(e, j);
                        if j < old_e.len() {
                            lemma_map_at(old_e, j);
                        }
                    }
                    assert(entries_map(e) =~= old(self).map().insert(key@, value));
                    assert(e.map_values(|x: (String, V)| x.0@) =~= old(self).keys().push(key@));
                }
            },
        }
        self.entries = v;
    }

    /// Removes the entry stored under `key`, returning its value.
    pub fn remove(&mut self, key: &String) -> (r: Option<V>)
        ensures
            final(self).map() == old(self).map().remove(key@),
            r matches Some(v) ==> old(self).map().contains_key(key@) && v == old(self).map()[key@],
            r is None <==> !old(self).map().contains_key(key@),
    {
        proof { use_type_invariant(&*self); }
        let ghost old_e = self.entries@;
        match self.index_of(key) {
            Some(i) => {
                proof { lemma_map_at(old_e, i as int); }
                let mut rest: Vec<(String, V)> = Vec::new();
                std::mem::swap(&mut rest, &mut self.entries);
                let (_, v) = rest.remove(i);
                proof {
                    let e = rest@;
                    assert forall|a: int, b: int| 0 <= a < e.len() && 0 <= b < e.len() && a != b
                        implies e[a].0@ != e[b].0@ by {
                        let a2 = if a < i { a } else { a + 1 };
                        let b2 = if b < i { b } else { b + 1 };
                        assert(e[a] == old_e[a2]);
                        assert(e[b] == old_e[b2]);
                    }
                    assert forall|k: Seq<char>| #[trigger] entries_map(e).contains_key(k)
                        == old(self).map().remove(key@).contains_key(k) by {
                        if exists|j: int| 0 <= j < old_e.len() && old_e[j].0@ == k {
                            let j = choose|j: int| 0 <= j < old_e.len() && old_e[j].0@ == k;
                            if j < i {
                                assert(e[j].0@ == k);
                            } else if j > i {
                                assert(e[j - 1].0@ == k);
                            }
                        }
                        if exists|j: int| 0 <= j < e.len() && e[j].0@ == k {
                            let j = choose|j: int| 0 <= j < e.len() && e[j].0@ == k;
                            let j2 = if j < i { j } else { j + 1 };
                            assert(old_e[j2].0@ == k);
                        }
                    }
                    assert forall|k: Seq<char>| #[trigger] entries_map(e).contains_key(k) implies
                        entries_map(e)[k] == old(self).map().remove(key@)[k] by {
                        let j = choose|j: int| 0 <= j < e.len() && e[j].0@ == k;
                        lemma_map_at(e, j);
                        let j2 = if j < i { j } else { j + 1 };
                        assert(old_e[j2] == e[j]);
                        lemma_map_at(old_e, j2);
                    }
                    assert(entries_map(e) =~= old(self).map().remove(key@));
                }
                self.entries = rest;
                Some(v)
            },
            None => {
                assert(old(self).map().remove(key@) =~= old(self).map());
                None
            },
        }
    }

    /// Removes every entry.
    pub fn clear(&mut self)
        ensures
            final(self).map() == Map::<Seq<char>, V>::empty(),
            final(self).entries().len() == 0,
    {
        self.entries = Vec::new();
        assert(self.map() =~= Map::<Seq<char>, V>::empty());
    }
}

}
