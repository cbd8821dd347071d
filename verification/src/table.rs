//! A table of entries under distinct keys.

use vstd::prelude::*;

verus! {

/// A key: two keys are the same where their views are.
pub trait Key: View + Sized {
    /// Whether two keys are the same.
    fn same(&self, other: &Self) -> (b: bool)
        ensures
            b == (self@ == other@),
    ;
}

impl Key for u64 {
    fn same(&self, other: &Self) -> (b: bool) {
        *self == *other
    }
}

impl Key for i64 {
    fn same(&self, other: &Self) -> (b: bool) {
        *self == *other
    }
}

impl Key for u32 {
    fn same(&self, other: &Self) -> (b: bool) {
        *self == *other
    }
}

impl Key for (i64, i64) {
    fn same(&self, other: &Self) -> (b: bool) {
        self.0 == other.0 && self.1 == other.1
    }
}

impl Key for (i64, u64) {
    fn same(&self, other: &Self) -> (b: bool) {
        self.0 == other.0 && self.1 == other.1
    }
}

/// Entries of type `V`, each under a key of its own.
pub struct Table<K: Key, V> {
    entries: Vec<(K, V)>,
}

spec fn map_of<K: Key, V>(s: Seq<(K, V)>) -> Map<K::V, V>
    decreases s.len(),
{
    if s.len() == 0 {
        Map::empty()
    } else {
        map_of(s.drop_last()).insert(s.last().0@, s.last().1)
    }
}

spec fn distinct<K: Key, V>(s: Seq<(K, V)>) -> bool {
    forall|i: int, j: int|
        #![trigger s[i], s[j]]
        0 <= i < j < s.len() ==> s[i].0@ != s[j].0@
}

proof fn lemma_map_of<K: Key, V>(s: Seq<(K, V)>)
    requires
        distinct(s),
    ensures
        map_of(s).dom().finite(),
        map_of(s).len() == s.len(),
        forall|i: int|
            #![trigger s[i]]
            0 <= i < s.len() ==> map_of(s).contains_key(s[i].0@) && map_of(s)[s[i].0@] == s[i].1,
        forall|k: K::V| #[trigger]
            map_of(s).contains_key(k) ==> exists|i: int|
                #![trigger s[i]]
                0 <= i < s.len() && s[i].0@ == k,
    decreases s.len(),
{
    if s.len() > 0 {
        let t = s.drop_last();
        lemma_map_of(t);
        assert forall|i: int|
            #![trigger s[i]]
            0 <= i < s.len() implies map_of(s).contains_key(s[i].0@) && map_of(s)[s[i].0@]
            == s[i].1 by {
            if i < t.len() {
                assert(t[i] == s[i]);
                assert(s[i].0@ != s[s.len() - 1].0@);
            }
        }
        assert forall|k: K::V| #[trigger] map_of(s).contains_key(k) implies exists|i: int|
            #![trigger s[i]]
            0 <= i < s.len() && s[i].0@ == k by {
            if k == s.last().0@ {
                assert(s[s.len() - 1].0@ == k);
            } else {
                assert(map_of(t).contains_key(k));
                let i = choose|i: int| #![trigger t[i]] 0 <= i < t.len() && t[i].0@ == k;
                assert(s[i] == t[i]);
            }
        }
        if map_of(t).contains_key(s.last().0@) {
            let i = choose|i: int| #![trigger t[i]] 0 <= i < t.len() && t[i].0@ == s.last().0@;
            assert(s[i] == t[i]);
            assert(s[i].0@ != s[s.len() - 1].0@);
        }
    }
}

/// What stays of a table when the entries that `p` does not hold of are removed.
pub open spec fn retained<A, V>(m: Map<A, V>, p: spec_fn(A, V) -> bool) -> Map<A, V> {
    Map::new(|k: A| m.contains_key(k) && p(k, m[k]), |k: A| m[k])
}

/// A choice among the entries of a table.
pub trait Filter<K: Key, V> {
    /// The entry `v` under `k` stays.
    spec fn keeps(&self, k: K::V, v: V) -> bool;

    /// Whether the entry `v` under `k` stays.
    fn keep(&self, k: &K, v: &V) -> (b: bool)
        ensures
            b == self.keeps(k@, *v),
    ;
}

impl<K: Key, V> View for Table<K, V> {
    type V = Map<K::V, V>;

    closed spec fn view(&self) -> Map<K::V, V> {
        map_of(self.entries@)
    }
}

impl<K: Key, V> Table<K, V> {
    /// No key stands twice.
    pub closed spec fn wf(&self) -> bool {
        distinct(self.entries@)
    }

    /// The empty table.
    pub fn new() -> (t: Self)
        ensures
            t.wf(),
            t@ == Map::<K::V, V>::empty(),
    {
        Table { entries: Vec::new() }
    }

    /// The number of entries.
    pub fn len(&self) -> (n: usize)
        requires
            self.wf(),
        ensures
            n == self@.len(),
            self@.dom().finite(),
    {
        proof {
            lemma_map_of(self.entries@);
        }
        self.entries.len()
    }

    fn position(&self, key: &K) -> (r: Option<usize>)
        requires
            self.wf(),
        ensures
            r is Some <==> self@.contains_key(key@),
            r matches Some(i) ==> i < self.entries@.len() && self.entries@[i as int].0@ == key@
                && self@[key@] == self.entries@[i as int].1,
    {
        proof {
            lemma_map_of(self.entries@);
        }
        let mut i: usize = 0;
        while i < self.entries.len()
            invariant
                i <= self.entries@.len(),
                forall|j: int| #![trigger self.entries@[j]] 0 <= j < i ==> self.entries@[j].0@ != key@,
                forall|j: int|
                    #![trigger self.entries@[j]]
                    0 <= j < self.entries@.len() ==> self@.contains_key(self.entries@[j].0@)
                        && self@[self.entries@[j].0@] == self.entries@[j].1,
            decreases self.entries@.len() - i,
        {
            if self.entries[i].0.same(key) {
                return Some(i);
            }
            i = i + 1;
        }
        None
    }

    /// The entry under `key`, if there is one.
    pub fn get(&self, key: &K) -> (r: Option<&V>)
        requires
            self.wf(),
        ensures
            r is Some <==> self@.contains_key(key@),
            r matches Some(v) ==> *v == self@[key@],
    {
        match self.position(key) {
            Some(i) => Some(&self.entries[i].1),
            None => None,
        }
    }

    /// Puts `value` under `key`, in the place of what stood there.
    pub fn insert(&mut self, key: K, value: V)
        requires
            old(self).wf(),
        ensures
            final(self).wf(),
            final(self)@ == old(self)@.insert(key@, value),
    {
        let ghost before = self.entries@;
        proof {
            lemma_map_of(before);
        }
        match self.position(&key) {
            Some(i) => {
                self.entries.set(i, (key, value));
                let ghost s = self.entries@;
                proof {
                    assert forall|a: int, b: int|
                        #![trigger s[a], s[b]]
                        0 <= a < b < s.len() implies s[a].0@ != s[b].0@ by {
                        assert(before[a].0@ != before[b].0@);
                    }
                    lemma_map_of(s);
                    lemma_same_entries(s, before, i as int, key@, value);
                }
            },
            None => {
                self.entries.push((key, value));
                let ghost s = self.entries@;
                proof {
                    assert(s.drop_last() =~= before);
                    assert forall|a: int, b: int|
                        #![trigger s[a], s[b]]
                        0 <= a < b < s.len() implies s[a].0@ != s[b].0@ by {
                        assert(s[a] == before[a]);
                        if b < before.len() {
                            assert(s[b] == before[b]);
                        }
                    }
                }
            },
        }
    }

    /// Removes the entry under `key` and hands it back, if there was one.
    pub fn remove(&mut self, key: &K) -> (r: Option<V>)
        requires
            old(self).wf(),
        ensures
            final(self).wf(),
            final(self)@ == old(self)@.remove(key@),
            r is Some <==> old(self)@.contains_key(key@),
            r matches Some(v) ==> v == old(self)@[key@],
    {
        match self.position(key) {
            Some(i) => {
                let ghost before = self.entries@;
                let (k, v) = self.entries.swap_remove(i);
                proof {
                    lemma_swap_removed(before, self.entries@, i as int);
                }
                Some(v)
            },
            None => {
                assert(self@ =~= self@.remove(key@));
                None
            },
        }
    }

    /// Removes every entry.
    pub fn clear(&mut self)
        ensures
            final(self).wf(),
            final(self)@ == Map::<K::V, V>::empty(),
    {
        self.entries = Vec::new();
    }

    /// Removes the entries that `filter` turns down.
    pub fn retain<F: Filter<K, V>>(&mut self, filter: &F)
        requires
            old(self).wf(),
        ensures
            final(self).wf(),
            final(self)@ == retained(old(self)@, |k: K::V, v: V| filter.keeps(k, v)),
    {
        let ghost m0 = self@;
        let ghost p = |k: K::V, v: V| filter.keeps(k, v);
        let mut i: usize = 0;
        while i < self.entries.len()
            invariant
                self.wf(),
                i <= self.entries@.len(),
                p == (|k: K::V, v: V| filter.keeps(k, v)),
                retained(self@, p) == retained(m0, p),
                forall|j: int|
                    #![trigger self.entries@[j]]
                    0 <= j < i ==> p(self.entries@[j].0@, self.entries@[j].1),
            decreases self.entries@.len() - i,
        {
            let ghost before = self.entries@;
            let e = &self.entries[i];
            if filter.keep(&e.0, &e.1) {
                i = i + 1;
            } else {
                proof {
                    lemma_map_of(before);
                }
                let _ = self.entries.swap_remove(i);
                proof {
                    lemma_swap_removed(before, self.entries@, i as int);
                    assert(retained(self@, p) =~= retained(map_of(before), p));
                }
            }
        }
        proof {
            lemma_map_of(self.entries@);
            assert(retained(self@, p) =~= self@);
        }
    }
}

proof fn lemma_same_entries<K: Key, V>(
    s: Seq<(K, V)>,
    before: Seq<(K, V)>,
    i: int,
    k: K::V,
    value: V,
)
    requires
        distinct(s),
        distinct(before),
        s.len() == before.len(),
        0 <= i < s.len(),
        s[i].0@ == k,
        before[i].0@ == k,
        s[i].1 == value,
        forall|j: int| #![trigger s[j]] 0 <= j < s.len() && j != i ==> s[j] == before[j],
    ensures
        map_of(s) == map_of(before).insert(k, value),
{
    lemma_map_of(s);
    lemma_map_of(before);
    let m = map_of(s);
    let n = map_of(before).insert(k, value);
    assert forall|x: K::V| #[trigger] m.contains_key(x) == n.contains_key(x) by {
        if m.contains_key(x) {
            let j = choose|j: int| #![trigger s[j]] 0 <= j < s.len() && s[j].0@ == x;
            if j != i {
                assert(s[j] == before[j]);
            }
        }
        if n.contains_key(x) && x != k {
            let j = choose|j: int| #![trigger before[j]] 0 <= j < before.len() && before[j].0@ == x;
            assert(s[j] == before[j]);
        }
    }
    assert forall|x: K::V| #[trigger] m.contains_key(x) implies m[x] == n[x] by {
        let j = choose|j: int| #![trigger s[j]] 0 <= j < s.len() && s[j].0@ == x;
        if j != i {
            assert(s[j] == before[j]);
            assert(s[j].0@ != s[i].0@) by {
                if j < i {
                    assert(s[j].0@ != s[i].0@);
                } else {
                    assert(s[i].0@ != s[j].0@);
                }
            }
        }
    }
    assert(m =~= n);
}

proof fn lemma_swap_removed<K: Key, V>(before: Seq<(K, V)>, after: Seq<(K, V)>, i: int)
    requires
        distinct(before),
        0 <= i < before.len(),
        after == before.update(i, before.last()).drop_last(),
    ensures
        distinct(after),
        map_of(after) == map_of(before).remove(before[i].0@),
{
    let n = before.len() - 1;
    assert forall|a: int, b: int|
        #![trigger after[a], after[b]]
        0 <= a < b < after.len() implies after[a].0@ != after[b].0@ by {
        let x = if a == i {
            n as int
        } else {
            a
        };
        let y = if b == i {
            n as int
        } else {
            b
        };
        assert(after[a] == before[x] && after[b] == before[y]);
        if x < y {
            assert(before[x].0@ != before[y].0@);
        } else {
            assert(before[y].0@ != before[x].0@);
        }
    }
    lemma_map_of(before);
    lemma_map_of(after);
    let m = map_of(after);
    let w = map_of(before).remove(before[i].0@);
    assert forall|x: K::V| #[trigger] m.contains_key(x) == w.contains_key(x) by {
        if m.contains_key(x) {
            let j = choose|j: int| #![trigger after[j]] 0 <= j < after.len() && after[j].0@ == x;
            let z = if j == i {
                n as int
            } else {
                j
            };
            assert(after[j] == before[z]);
            if z < i {
                assert(before[z].0@ != before[i].0@);
            } else {
                assert(before[i].0@ != before[z].0@);
            }
        }
        if w.contains_key(x) {
            let j = choose|j: int| #![trigger before[j]] 0 <= j < before.len() && before[j].0@ == x;
            if j == n {
                assert(after[i] == before[j]);
            } else {
                assert(after[j] == before[j]);
            }
        }
    }
    assert forall|x: K::V| #[trigger] m.contains_key(x) implies m[x] == w[x] by {
        let j = choose|j: int| #![trigger after[j]] 0 <= j < after.len() && after[j].0@ == x;
        let z = if j == i {
            n as int
        } else {
            j
        };
        assert(after[j] == before[z]);
        assert(map_of(before)[before[z].0@] == before[z].1);
    }
    assert(m =~= w);
}

} // verus!
