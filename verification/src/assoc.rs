//! A small map kept as a list of entries with pairwise distinct keys.

use vstd::prelude::*;
use crate::primitives::Key;

verus! {

/// No key occurs twice in `s`.
pub open spec fn distinct_keys<K, V>(s: Seq<(K, V)>) -> bool {
    forall|i: int, j: int| 0 <= i < j < s.len() ==> (#[trigger] s[i]).0 != (#[trigger] s[j]).0
}

/// Some entry of `s` has the key `k`.
pub open spec fn has_key<K, V>(s: Seq<(K, V)>, k: K) -> bool {
    exists|i: int| 0 <= i < s.len() && (#[trigger] s[i]).0 == k
}

/// The place of an entry of `s` with the key `k`.
pub open spec fn index_of<K, V>(s: Seq<(K, V)>, k: K) -> int {
    choose|i: int| 0 <= i < s.len() && (#[trigger] s[i]).0 == k
}

/// The map that a list of entries stands for.
pub open spec fn to_map<K, V>(s: Seq<(K, V)>) -> Map<K, V> {
    Map::new(|k: K| has_key(s, k), |k: K| s[index_of(s, k)].1)
}

/// With distinct keys, a key has one place only.
pub proof fn lemma_index_of<K, V>(s: Seq<(K, V)>, i: int)
    requires
        distinct_keys(s),
        0 <= i < s.len(),
    ensures
        has_key(s, s[i].0),
        index_of(s, s[i].0) == i,
{
    let k = s[i].0;
    assert(has_key(s, k));
    let j = index_of(s, k);
    if j < i {
        assert(s[j].0 != s[i].0);
    } else if i < j {
        assert(s[i].0 != s[j].0);
    }
}

/// With distinct keys, every entry is found in the map under its key.
pub proof fn lemma_lookup<K, V>(s: Seq<(K, V)>, i: int)
    requires
        distinct_keys(s),
        0 <= i < s.len(),
    ensures
        to_map(s).contains_key(s[i].0),
        to_map(s)[s[i].0] == s[i].1,
{
    lemma_index_of(s, i);
}

/// Appending an entry under a fresh key inserts it.
pub proof fn lemma_push<K, V>(s: Seq<(K, V)>, k: K, v: V)
    requires
        distinct_keys(s),
        !has_key(s, k),
    ensures
        distinct_keys(s.push((k, v))),
        to_map(s.push((k, v))) == to_map(s).insert(k, v),
{
    let t = s.push((k, v));
    assert forall|i: int, j: int| 0 <= i < j < t.len() implies (#[trigger] t[i]).0 != (
    #[trigger] t[j]).0 by {
        if j < s.len() {
            assert(s[i].0 != s[j].0);
        } else {
            assert(t[i] == s[i]);
        }
    }
    assert(t[s.len() as int] == (k, v));
    assert forall|x: K| #[trigger] to_map(t).contains_key(x) <==> to_map(s).insert(
        k,
        v,
    ).contains_key(x) by {
        if has_key(t, x) {
            let i = index_of(t, x);
            if i < s.len() {
                assert(s[i].0 == x);
            }
        }
        if has_key(s, x) {
            let i = index_of(s, x);
            assert(t[i].0 == x);
        }
    }
    assert forall|x: K| #[trigger] to_map(t).contains_key(x) implies to_map(t)[x] == to_map(
        s,
    ).insert(k, v)[x] by {
        let i = index_of(t, x);
        lemma_lookup(t, i);
        if i < s.len() {
            assert(t[i] == s[i]);
            lemma_lookup(s, i);
        }
    }
    assert(to_map(t) =~= to_map(s).insert(k, v));
}

/// Replacing the value of an entry replaces it in the map.
pub proof fn lemma_update<K, V>(s: Seq<(K, V)>, i: int, v: V)
    requires
        distinct_keys(s),
        0 <= i < s.len(),
    ensures
        distinct_keys(s.update(i, (s[i].0, v))),
        to_map(s.update(i, (s[i].0, v))) == to_map(s).insert(s[i].0, v),
{
    let k = s[i].0;
    let t = s.update(i, (k, v));
    assert forall|a: int, b: int| 0 <= a < b < t.len() implies (#[trigger] t[a]).0 != (
    #[trigger] t[b]).0 by {
        assert(t[a].0 == s[a].0);
        assert(t[b].0 == s[b].0);
        assert(s[a].0 != s[b].0);
    }
    assert forall|x: K| #[trigger] to_map(t).contains_key(x) <==> to_map(s).insert(
        k,
        v,
    ).contains_key(x) by {
        if has_key(t, x) {
            let j = index_of(t, x);
            assert(s[j].0 == x);
        }
        if has_key(s, x) {
            let j = index_of(s, x);
            assert(t[j].0 == x);
        }
        assert(t[i].0 == k);
    }
    assert forall|x: K| #[trigger] to_map(t).contains_key(x) implies to_map(t)[x] == to_map(
        s,
    ).insert(k, v)[x] by {
        let j = index_of(t, x);
        lemma_lookup(t, j);
        if j != i {
            assert(t[j] == s[j]);
            lemma_lookup(s, j);
        }
    }
    assert(to_map(t) =~= to_map(s).insert(k, v));
}

/// Taking an entry out removes its key from the map.
pub proof fn lemma_remove<K, V>(s: Seq<(K, V)>, i: int)
    requires
        distinct_keys(s),
        0 <= i < s.len(),
    ensures
        distinct_keys(s.remove(i)),
        to_map(s.remove(i)) == to_map(s).remove(s[i].0),
{
    let k = s[i].0;
    let t = s.remove(i);
    assert forall|a: int| 0 <= a < t.len() implies #[trigger] t[a] == s[if a < i { a } else { a + 1 }] by {}
    assert forall|a: int, b: int| 0 <= a < b < t.len() implies (#[trigger] t[a]).0 != (
    #[trigger] t[b]).0 by {
        let a2 = if a < i { a } else { a + 1 };
        let b2 = if b < i { b } else { b + 1 };
        assert(t[a] == s[a2]);
        assert(t[b] == s[b2]);
        assert(s[a2].0 != s[b2].0);
    }
    assert forall|x: K| #[trigger] to_map(t).contains_key(x) <==> to_map(s).remove(
        k,
    ).contains_key(x) by {
        if has_key(t, x) {
            let j = index_of(t, x);
            let j2 = if j < i { j } else { j + 1 };
            assert(t[j] == s[j2]);
            assert(s[j2].0 == x);
            if j2 < i {
                assert(s[j2].0 != s[i].0);
            } else {
                assert(s[i].0 != s[j2].0);
            }
        }
        if has_key(s, x) && x != k {
            let j = index_of(s, x);
            let j2 = if j < i { j } else { j - 1 };
            assert(t[j2] == s[j]);
            assert(t[j2].0 == x);
        }
    }
    assert forall|x: K| #[trigger] to_map(t).contains_key(x) implies to_map(t)[x] == to_map(
        s,
    ).remove(k)[x] by {
        let j = index_of(t, x);
        let j2 = if j < i { j } else { j + 1 };
        lemma_lookup(t, j);
        assert(t[j] == s[j2]);
        lemma_lookup(s, j2);
    }
    assert(to_map(t) =~= to_map(s).remove(k));
}

/// With distinct keys, the map has as many keys as the list has entries.
pub proof fn lemma_size<K, V>(s: Seq<(K, V)>)
    requires
        distinct_keys(s),
    ensures
        to_map(s).dom().finite(),
        to_map(s).dom().len() == s.len(),
    decreases s.len(),
{
    if s.len() == 0 {
        assert(to_map(s).dom() =~= Set::<K>::empty());
    } else {
        let front = s.drop_last();
        let k = s.last().0;
        let v = s.last().1;
        assert forall|i: int, j: int| 0 <= i < j < front.len() implies (#[trigger] front[i]).0 != (
        #[trigger] front[j]).0 by {
            assert(front[i] == s[i] && front[j] == s[j]);
        }
        assert(!has_key(front, k)) by {
            if has_key(front, k) {
                let j = index_of(front, k);
                assert(front[j] == s[j]);
                assert(s[j].0 != s[s.len() - 1].0);
            }
        }
        lemma_size(front);
        lemma_push(front, k, v);
        assert(front.push((k, v)) =~= s);
        assert(to_map(s).dom() =~= to_map(front).dom().insert(k));
    }
}

/// A map from keys to values, stored as a list in which no key occurs twice.
pub struct AssocList<K, V> {
    entries: Vec<(K, V)>,
}

impl<K: Key, V> View for AssocList<K, V> {
    type V = Map<K, V>;

    open spec fn view(&self) -> Map<K, V> {
        to_map(self.pairs())
    }
}

impl<K: Key, V> AssocList<K, V> {
    /// The entries in the order in which they are stored.
    pub closed spec fn pairs(&self) -> Seq<(K, V)> {
        self.entries@
    }

    /// No key is stored twice.
    pub open spec fn wf(&self) -> bool {
        distinct_keys(self.pairs())
    }

    /// Every stored entry is an entry of the map.
    pub proof fn lemma_pair_in_view(&self, i: int)
        requires
            self.wf(),
            0 <= i < self.pairs().len(),
        ensures
            self@.contains_key(self.pairs()[i].0),
            self@[self.pairs()[i].0] == self.pairs()[i].1,
    {
        lemma_lookup(self.pairs(), i);
    }

    /// The empty map.
    pub fn new() -> (r: Self)
        ensures
            r.wf(),
            r.pairs() == Seq::<(K, V)>::empty(),
            r@ == Map::<K, V>::empty(),
    {
        let r = AssocList { entries: Vec::new() };
        assert(r@ =~= Map::<K, V>::empty());
        r
    }

    /// The number of entries, which is the number of keys.
    pub fn len(&self) -> (n: usize)
        ensures
            n == self.pairs().len(),
            self.wf() ==> self@.dom().finite() && n == self@.dom().len(),
    {
        proof {
            if self.wf() {
                lemma_size(self.pairs());
            }
        }
        self.entries.len()
    }

    /// The key of the entry stored at place `i`.
    pub fn key_at(&self, i: usize) -> (k: K)
        requires
            i < self.pairs().len(),
        ensures
            k == self.pairs()[i as int].0,
    {
        self.entries[i].0
    }

    /// The value of the entry stored at place `i`.
    pub fn value_at(&self, i: usize) -> (v: &V)
        requires
            i < self.pairs().len(),
        ensures
            *v == self.pairs()[i as int].1,
    {
        &self.entries[i].1
    }

    /// The first place at which `key` is stored, if it is stored.
    pub fn position(&self, key: &K) -> (r: Option<usize>)
        ensures
            match r {
                Some(i) => i < self.pairs().len() && self.pairs()[i as int].0 == *key
                    && forall|j: int| 0 <= j < i ==> (#[trigger] self.pairs()[j]).0 != *key,
                None => !has_key(self.pairs(), *key),
            },
    {
        let n: usize = self.entries.len();
        let mut i: usize = 0;
        while i < n
            invariant
                n == self.entries@.len(),
                i <= n,
                forall|j: int| 0 <= j < i ==> (#[trigger] self.entries@[j]).0 != *key,
            decreases n - i,
        {
            if self.entries[i].0.same(key) {
                return Some(i);
            }
            i += 1;
        }
        None
    }

    /// Whether `key` has an entry.
    pub fn contains_key(&self, key: &K) -> (r: bool)
        ensures
            r == self@.contains_key(*key),
    {
        self.position(key).is_some()
    }

    /// The value stored under `key`.
    pub fn get(&self, key: &K) -> (r: Option<&V>)
        requires
            self.wf(),
        ensures
            match r {
                Some(v) => self@.contains_key(*key) && *v == self@[*key],
                None => !self@.contains_key(*key),
            },
    {
        match self.position(key) {
            Some(i) => {
                proof {
                    lemma_lookup(self.pairs(), i as int);
                }
                Some(&self.entries[i].1)
            },
            None => None,
        }
    }

    /// Stores `value` under `key`: in the place of the entry that `key` had,
    /// or else at the end of the list.
    pub fn insert(&mut self, key: K, value: V)
        requires
            old(self).wf(),
        ensures
            final(self).wf(),
            final(self)@ == old(self)@.insert(key, value),
            final(self).pairs() == (if has_key(old(self).pairs(), key) {
                old(self).pairs().update(index_of(old(self).pairs(), key), (key, value))
            } else {
                old(self).pairs().push((key, value))
            }),
    {
        match self.position(&key) {
            Some(i) => {
                proof {
                    lemma_index_of(self.pairs(), i as int);
                    lemma_update(self.pairs(), i as int, value);
                }
                self.entries.set(i, (key, value));
            },
            None => {
                proof {
                    lemma_push(self.pairs(), key, value);
                }
                self.entries.push((key, value));
            },
        }
    }

    /// Takes out what is stored under `key`; the other entries keep their order.
    pub fn remove(&mut self, key: &K) -> (r: Option<V>)
        requires
            old(self).wf(),
        ensures
            final(self).wf(),
            final(self)@ == old(self)@.remove(*key),
            final(self).pairs() == (if has_key(old(self).pairs(), *key) {
                old(self).pairs().remove(index_of(old(self).pairs(), *key))
            } else {
                old(self).pairs()
            }),
            r == (if old(self)@.contains_key(*key) {
                Some(old(self)@[*key])
            } else {
                None
            }),
    {
        match self.position(key) {
            Some(i) => {
                proof {
                    lemma_index_of(self.pairs(), i as int);
                    lemma_lookup(self.pairs(), i as int);
                    lemma_remove(self.pairs(), i as int);
                }
                let entry = self.entries.remove(i);
                Some(entry.1)
            },
            None => {
                assert(self@ =~= self@.remove(*key));
                None
            },
        }
    }
}

impl<K: Key, V: Copy> AssocList<K, V> {
    /// A copy of the list, entry by entry.
    pub fn duplicate(&self) -> (r: Self)
        ensures
            r.pairs() == self.pairs(),
    {
        let mut entries: Vec<(K, V)> = Vec::new();
        let n: usize = self.entries.len();
        let mut i: usize = 0;
        while i < n
            invariant
                n == self.entries@.len(),
                i <= n,
                entries@ == self.entries@.take(i as int),
            decreases n - i,
        {
            let entry = self.entries[i];
            entries.push(entry);
            assert(self.entries@.take(i + 1) =~= self.entries@.take(i as int).push(entry));
            i += 1;
        }
        assert(self.entries@.take(n as int) =~= self.entries@);
        AssocList { entries }
    }
}

} // verus!
