//! A map kept as a list of key-value pairs in insertion order, with no key
//! held twice. It stands where a hash map would, for keys wider than a
//! machine word.

use vstd::prelude::*;

verus! {

/// A key that can be compared for equality in executable code.
pub trait Key: Copy {
    fn same(&self, other: &Self) -> (r: bool)
        ensures
            r == (*self == *other),
    ;
}

/// No key occurs at two positions of `s`.
pub open spec fn distinct_keys<K, V>(s: Seq<(K, V)>) -> bool {
    forall|i: int, j: int| 0 <= i < j < s.len() ==> (#[trigger] s[i]).0 != (#[trigger] s[j]).0
}

/// Some pair of `s` has key `k`.
pub open spec fn has_key<K, V>(s: Seq<(K, V)>, k: K) -> bool {
    exists|i: int| 0 <= i < s.len() && (#[trigger] s[i]).0 == k
}

/// A position of `s` that holds key `k`, where there is one.
pub open spec fn key_index<K, V>(s: Seq<(K, V)>, k: K) -> int {
    choose|i: int| 0 <= i < s.len() && (#[trigger] s[i]).0 == k
}

/// The map that the pairs of `s` spell.
pub open spec fn to_map<K, V>(s: Seq<(K, V)>) -> Map<K, V> {
    Map::new(|k: K| has_key(s, k), |k: K| s[key_index(s, k)].1)
}

/// Each pair of a list with distinct keys is an entry of its map.
pub proof fn lemma_to_map_at<K, V>(s: Seq<(K, V)>, i: int)
    requires
        distinct_keys(s),
        0 <= i < s.len(),
    ensures
        to_map(s).contains_key(s[i].0),
        to_map(s)[s[i].0] == s[i].1,
        key_index(s, s[i].0) == i,
{
    let k = s[i].0;
    assert(has_key(s, k));
    let j = key_index(s, k);
    assert(0 <= j < s.len() && s[j].0 == k);
    if j != i {
        if j < i {
            assert(s[j].0 != s[i].0);
        } else {
            assert(s[i].0 != s[j].0);
        }
    }
}

/// Appending a pair with a fresh key inserts it into the map.
pub proof fn lemma_to_map_push<K, V>(s: Seq<(K, V)>, k: K, v: V)
    requires
        distinct_keys(s),
        !has_key(s, k),
    ensures
        distinct_keys(s.push((k, v))),
        to_map(s.push((k, v))) == to_map(s).insert(k, v),
{
    let t = s.push((k, v));
    assert forall|i: int, j: int| 0 <= i < j < t.len() implies (#[trigger] t[i]).0 != (
    #[trigger] t[j]).0 by {
        if j == s.len() {
            assert(t[i] == s[i]);
            assert(!(s[i].0 == k));
        } else {
            assert(t[i] == s[i] && t[j] == s[j]);
        }
    }
    assert forall|q: K| #[trigger] to_map(t).contains_key(q) == to_map(s).insert(
        k,
        v,
    ).contains_key(q) by {
        if has_key(t, q) {
            let i = key_index(t, q);
            if i < s.len() {
                assert(s[i] == t[i]);
            }
        }
        if has_key(s, q) {
            let i = key_index(s, q);
            assert(t[i] == s[i]);
        }
        if q == k {
            assert(t[s.len() as int].0 == k);
        }
    }
    assert forall|q: K| to_map(t).contains_key(q) implies #[trigger] to_map(t)[q] == to_map(
        s,
    ).insert(k, v)[q] by {
        let i = key_index(t, q);
        lemma_to_map_at(t, i);
        if i < s.len() {
            assert(t[i] == s[i]);
            lemma_to_map_at(s, i);
        }
    }
    assert(to_map(t) =~= to_map(s).insert(k, v));
}

/// Replacing the value at the position of a key updates the map at that key.
pub proof fn lemma_to_map_update<K, V>(s: Seq<(K, V)>, i: int, v: V)
    requires
        distinct_keys(s),
        0 <= i < s.len(),
    ensures
        distinct_keys(s.update(i, (s[i].0, v))),
        to_map(s.update(i, (s[i].0, v))) == to_map(s).insert(s[i].0, v),
{
    let k = s[i].0;
    let t = s.update(i, (k, v));
    assert forall|a: int, b: int| 0 <= a < b < t.len() implies (#[trigger] t[a]).0 != (
    #[trigger] t[b]).0 by {
        assert(t[a].0 == s[a].0 && t[b].0 == s[b].0);
    }
    assert forall|q: K| #[trigger] to_map(t).contains_key(q) == to_map(s).insert(
        k,
        v,
    ).contains_key(q) by {
        if has_key(t, q) {
            let j = key_index(t, q);
            assert(s[j].0 == q);
        }
        if has_key(s, q) {
            let j = key_index(s, q);
            assert(t[j].0 == q);
        }
        if q == k {
            assert(t[i].0 == k);
        }
    }
    assert forall|q: K| to_map(t).contains_key(q) implies #[trigger] to_map(t)[q] == to_map(
        s,
    ).insert(k, v)[q] by {
        let j = key_index(t, q);
        lemma_to_map_at(t, j);
        if j != i {
            assert(t[j] == s[j]);
            lemma_to_map_at(s, j);
        }
    }
    assert(to_map(t) =~= to_map(s).insert(k, v));
}

/// Taking out the pair at a position removes its key from the map.
pub proof fn lemma_to_map_remove<K, V>(s: Seq<(K, V)>, i: int)
    requires
        distinct_keys(s),
        0 <= i < s.len(),
    ensures
        distinct_keys(s.remove(i)),
        to_map(s.remove(i)) == to_map(s).remove(s[i].0),
{
    let k = s[i].0;
    let t = s.remove(i);
    assert forall|a: int, b: int| 0 <= a < b < t.len() implies (#[trigger] t[a]).0 != (
    #[trigger] t[b]).0 by {
        let a0 = if a < i { a } else { a + 1 };
        let b0 = if b < i { b } else { b + 1 };
        assert(t[a] == s[a0] && t[b] == s[b0]);
    }
    assert forall|q: K| #[trigger] to_map(t).contains_key(q) == to_map(s).remove(k).contains_key(
        q,
    ) by {
        if has_key(t, q) {
            let j = key_index(t, q);
            let j0 = if j < i { j } else { j + 1 };
            assert(t[j] == s[j0]);
            if j0 < i {
                assert(s[j0].0 != s[i].0);
            } else {
                assert(s[i].0 != s[j0].0);
            }
        }
        if has_key(s, q) && q != k {
            let j = key_index(s, q);
            let j1 = if j < i { j } else { j - 1 };
            assert(t[j1] == s[j]);
        }
    }
    assert forall|q: K| to_map(t).contains_key(q) implies #[trigger] to_map(t)[q] == to_map(
        s,
    ).remove(k)[q] by {
        let j = key_index(t, q);
        lemma_to_map_at(t, j);
        let j0 = if j < i { j } else { j + 1 };
        assert(t[j] == s[j0]);
        lemma_to_map_at(s, j0);
    }
    assert(to_map(t) =~= to_map(s).remove(k));
}

/// The map of a list with distinct keys has as many entries as the list.
pub proof fn lemma_to_map_len<K, V>(s: Seq<(K, V)>)
    requires
        distinct_keys(s),
    ensures
        to_map(s).dom().finite(),
        to_map(s).dom().len() == s.len(),
    decreases s.len(),
{
    if s.len() == 0 {
        assert(to_map(s).dom() =~= Set::<K>::empty());
    } else {
        let p = s.drop_last();
        let (k, v) = s.last();
        assert forall|i: int, j: int| 0 <= i < j < p.len() implies (#[trigger] p[i]).0 != (
        #[trigger] p[j]).0 by {
            assert(p[i] == s[i] && p[j] == s[j]);
        }
        lemma_to_map_len(p);
        if has_key(p, k) {
            let i = key_index(p, k);
            assert(p[i] == s[i]);
            assert(s[i].0 != s[s.len() - 1].0);
        }
        assert(p.push((k, v)) =~= s);
        lemma_to_map_push(p, k, v);
        assert(to_map(s).dom() =~= to_map(p).dom().insert(k));
    }
}

/// A map from keys to values, held as a list of pairs.
pub struct AssocList<K, V> {
    entries: Vec<(K, V)>,
}

impl<K: Key, V> AssocList<K, V> {
    /// The pairs in the order in which their keys were first inserted.
    pub closed spec fn pairs(&self) -> Seq<(K, V)> {
        self.entries@
    }

    /// No key is held twice.
    pub open spec fn wf(&self) -> bool {
        distinct_keys(self.pairs())
    }

    /// The map from each key to its value.
    pub open spec fn map(&self) -> Map<K, V> {
        to_map(self.pairs())
    }

    /// The empty list.
    pub fn new() -> (m: Self)
        ensures
            m.wf(),
            m.pairs() == Seq::<(K, V)>::empty(),
            m.map() == Map::<K, V>::empty(),
    {
        let m = AssocList { entries: Vec::new() };
        assert(m.map() =~= Map::<K, V>::empty());
        m
    }

    /// The number of pairs.
    pub fn len(&self) -> (n: usize)
        ensures
            n == self.pairs().len(),
            self.wf() ==> n == self.map().dom().len(),
    {
        proof {
            if self.wf() {
                lemma_to_map_len(self.pairs());
            }
        }
        self.entries.len()
    }

    /// The position of `key`, if the list holds it.
    pub fn find(&self, key: &K) -> (r: Option<usize>)
        ensures
            match r {
                Some(i) => i < self.pairs().len() && self.pairs()[i as int].0 == *key,
                None => !has_key(self.pairs(), *key),
            },
            r.is_some() == self.map().contains_key(*key),
    {
        let mut i: usize = 0;
        while i < self.entries.len()
            invariant
                i <= self.entries@.len(),
                forall|j: int| 0 <= j < i ==> (#[trigger] self.entries@[j]).0 != *key,
            decreases self.entries@.len() - i,
        {
            if self.entries[i].0.same(key) {
                return Some(i);
            }
            i += 1;
        }
        None
    }

    /// Whether the list holds `key`.
    pub fn contains_key(&self, key: &K) -> (r: bool)
        ensures
            r == self.map().contains_key(*key),
    {
        self.find(key).is_some()
    }

    /// The value of `key`, if the list holds it.
    pub fn get(&self, key: &K) -> (r: Option<&V>)
        requires
            self.wf(),
        ensures
            match r {
                Some(v) => self.map().contains_key(*key) && *v == self.map()[*key],
                None => !self.map().contains_key(*key),
            },
    {
        match self.find(key) {
            Some(i) => {
                proof {
                    lemma_to_map_at(self.pairs(), i as int);
                }
                Some(&self.entries[i].1)
            },
            None => None,
        }
    }

    /// The key at position `i`.
    pub fn key_at(&self, i: usize) -> (k: K)
        requires
            i < self.pairs().len(),
        ensures
            k == self.pairs()[i as int].0,
    {
        self.entries[i].0
    }

    /// The value at position `i`.
    pub fn value_at(&self, i: usize) -> (v: &V)
        requires
            i < self.pairs().len(),
        ensures
            *v == self.pairs()[i as int].1,
    {
        &self.entries[i].1
    }

    /// Sets the value of `key`: in place where the key is held, else as a new
    /// last pair.
    pub fn insert(&mut self, key: K, value: V)
        requires
            old(self).wf(),
        ensures
            final(self).wf(),
            final(self).map() == old(self).map().insert(key, value),
            final(self).pairs() == match old(self).find_spec(key) {
                Some(i) => old(self).pairs().update(i, (key, value)),
                None => old(self).pairs().push((key, value)),
            },
    {
        match self.find(&key) {
            Some(i) => {
                proof {
                    lemma_to_map_update(self.pairs(), i as int, value);
                    lemma_to_map_at(self.pairs(), i as int);
                }
                self.entries.set(i, (key, value));
            },
            None => {
                proof {
                    lemma_to_map_push(self.pairs(), key, value);
                }
                self.entries.push((key, value));
            },
        }
    }

    /// The position of `key` where the list holds it.
    pub open spec fn find_spec(&self, key: K) -> Option<int> {
        if has_key(self.pairs(), key) {
            Some(key_index(self.pairs(), key))
        } else {
            None
        }
    }

    /// Takes `key` out, and returns the value it had.
    pub fn remove(&mut self, key: &K) -> (r: Option<V>)
        requires
            old(self).wf(),
        ensures
            final(self).wf(),
            final(self).map() == old(self).map().remove(*key),
            match r {
                Some(v) => old(self).map().contains_key(*key) && v == old(self).map()[*key],
                None => !old(self).map().contains_key(*key),
            },
            final(self).pairs() == match old(self).find_spec(*key) {
                Some(i) => old(self).pairs().remove(i),
                None => old(self).pairs(),
            },
    {
        match self.find(key) {
            Some(i) => {
                proof {
                    lemma_to_map_remove(self.pairs(), i as int);
                    lemma_to_map_at(self.pairs(), i as int);
                }
                let (_, v) = self.entries.remove(i);
                Some(v)
            },
            None => {
                assert(self.map().remove(*key) =~= self.map());
                None
            },
        }
    }

    /// Appends a pair without looking for its key.
    pub(crate) fn push_unchecked(&mut self, key: K, value: V)
        ensures
            final(self).pairs() == old(self).pairs().push((key, value)),
    {
        self.entries.push((key, value));
    }

    /// Takes out the pair at position `i`.
    pub fn remove_at(&mut self, i: usize) -> (r: (K, V))
        requires
            old(self).wf(),
            i < old(self).pairs().len(),
        ensures
            final(self).wf(),
            r == old(self).pairs()[i as int],
            final(self).pairs() == old(self).pairs().remove(i as int),
            final(self).map() == old(self).map().remove(r.0),
    {
        proof {
            lemma_to_map_remove(self.pairs(), i as int);
        }
        self.entries.remove(i)
    }
}

} // verus!
