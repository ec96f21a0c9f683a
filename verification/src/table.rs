//! Keyed tables held as vectors of entries.
//!
//! `NodeTable` maps node identifiers to values and keeps its entries sorted by
//! identifier, so that "the lowest identifiers" and "the first entry" have a
//! fixed meaning.  `Table` maps composite keys to values and keeps its entries
//! in insertion order.  In both, no key occurs twice.
use crate::codec::bytes_equal;
use vstd::prelude::*;

verus! {

/// Some entry of `s` has the key `k`.
pub open spec fn seq_has_key<K, V>(s: Seq<(K, V)>, k: K) -> bool {
    exists|i: int| 0 <= i < s.len() && (#[trigger] s[i]).0 == k
}

/// The value stored under `k` in `s`, if any.
pub open spec fn seq_lookup<K, V>(s: Seq<(K, V)>, k: K) -> Option<V> {
    if seq_has_key(s, k) {
        Some(s[choose|i: int| 0 <= i < s.len() && (#[trigger] s[i]).0 == k].1)
    } else {
        None
    }
}

/// No key occurs twice in `s`.
pub open spec fn keys_distinct<K, V>(s: Seq<(K, V)>) -> bool {
    forall|i: int, j: int| 0 <= i < s.len() && 0 <= j < s.len() && i != j ==> (#[trigger] s[i]).0
        != (#[trigger] s[j]).0
}

/// The identifiers of `s` are strictly increasing.
pub open spec fn ids_increasing<V>(s: Seq<(u32, V)>) -> bool {
    forall|i: int, j: int| 0 <= i < j < s.len() ==> (#[trigger] s[i]).0 < (#[trigger] s[j]).0
}

/// With distinct keys, the lookup of `k` is `v` exactly when `(k, v)` is an entry.
pub proof fn lemma_lookup_entry<K, V>(s: Seq<(K, V)>, i: int)
    requires
        keys_distinct(s),
        0 <= i < s.len(),
    ensures
        seq_lookup(s, s[i].0) == Some(s[i].1),
{
    let k = s[i].0;
    assert(seq_has_key(s, k));
    let j = choose|j: int| 0 <= j < s.len() && (#[trigger] s[j]).0 == k;
    assert(j == i);
}

/// Keys that can be compared at run time.
pub trait TableKey: Sized {
    fn same_key(&self, other: &Self) -> (r: bool)
        ensures
            r == (*self == *other),
    ;
}

impl TableKey for u64 {
    fn same_key(&self, other: &Self) -> (r: bool) {
        *self == *other
    }
}

impl TableKey for (u64, u64) {
    fn same_key(&self, other: &Self) -> (r: bool) {
        self.0 == other.0 && self.1 == other.1
    }
}

impl TableKey for (u64, u64, [u8; 32]) {
    fn same_key(&self, other: &Self) -> (r: bool) {
        if self.0 == other.0 && self.1 == other.1 {
            let eq = bytes_equal(self.2.as_slice(), other.2.as_slice());
            proof {
                if eq {
                    assert(self.2 =~= other.2);
                }
            }
            eq
        } else {
            false
        }
    }
}

/// A table from node identifiers to values, sorted by identifier.
pub struct NodeTable<V> {
    entries: Vec<(u32, V)>,
}

impl<V> View for NodeTable<V> {
    type V = Seq<(u32, V)>;

    closed spec fn view(&self) -> Seq<(u32, V)> {
        self.entries@
    }
}

impl<V> NodeTable<V> {
    /// The entries are sorted by identifier (so no identifier occurs twice).
    pub open spec fn wf(&self) -> bool {
        ids_increasing(self@)
    }

    /// The value stored for `id`, if any.
    pub open spec fn lookup(&self, id: u32) -> Option<V> {
        seq_lookup(self@, id)
    }

    /// An empty table.
    pub fn new() -> (r: Self)
        ensures
            r@ == Seq::<(u32, V)>::empty(),
            r.wf(),
    {
        NodeTable { entries: Vec::new() }
    }

    /// The number of entries.
    pub fn len(&self) -> (r: usize)
        ensures
            r == self@.len(),
    {
        self.entries.len()
    }

    /// The entry at position `i` in identifier order, by reference.
    pub fn entry_ref(&self, i: usize) -> (r: &(u32, V))
        requires
            i < self@.len(),
        ensures
            *r == self@[i as int],
    {
        &self.entries[i]
    }

    /// Whether `id` has an entry.
    pub fn contains_key(&self, id: &u32) -> (r: bool)
        ensures
            r == seq_has_key(self@, *id),
    {
        let mut i: usize = 0;
        while i < self.entries.len()
            invariant
                0 <= i <= self.entries@.len(),
                forall|j: int| 0 <= j < i ==> (#[trigger] self.entries@[j]).0 != *id,
            decreases self.entries@.len() - i,
        {
            if self.entries[i].0 == *id {
                assert(self@[i as int].0 == *id);
                return true;
            }
            i = i + 1;
        }
        false
    }

    /// The value stored for `id`, if any.
    pub fn get(&self, id: &u32) -> (r: Option<&V>)
        requires
            self.wf(),
        ensures
            match r {
                Some(v) => self.lookup(*id) == Some(*v),
                None => self.lookup(*id) is None,
            },
    {
        let mut i: usize = 0;
        while i < self.entries.len()
            invariant
                0 <= i <= self.entries@.len(),
                self.wf(),
                forall|j: int| 0 <= j < i ==> (#[trigger] self.entries@[j]).0 != *id,
            decreases self.entries@.len() - i,
        {
            if self.entries[i].0 == *id {
                proof {
                    lemma_keys_increasing_distinct(self@);
                    lemma_lookup_entry(self@, i as int);
                }
                return Some(&self.entries[i].1);
            }
            i = i + 1;
        }
        None
    }

    /// Stores `v` for `id`, replacing an earlier value; keeps identifier order.
    pub fn insert(&mut self, id: u32, v: V)
        requires
            old(self).wf(),
        ensures
            final(self).wf(),
            forall|k: u32| #[trigger]
                final(self).lookup(k) == if k == id {
                    Some(v)
                } else {
                    old(self).lookup(k)
                },
            final(self)@.len() == if seq_has_key(old(self)@, id) {
                old(self)@.len()
            } else {
                old(self)@.len() + 1
            },
    {
        let ghost s = self@;
        let mut p: usize = 0;
        while p < self.entries.len() && self.entries[p].0 < id
            invariant
                0 <= p <= self.entries@.len(),
                self.entries@ == s,
                forall|j: int| 0 <= j < p ==> (#[trigger] s[j]).0 < id,
            decreases self.entries@.len() - p,
        {
            p = p + 1;
        }
        proof {
            lemma_keys_increasing_distinct(s);
        }
        if p < self.entries.len() && self.entries[p].0 == id {
            self.entries.set(p, (id, v));
            proof {
                let t = self@;
                assert(t == s.update(p as int, (id, v)));
                assert(ids_increasing(t));
                lemma_keys_increasing_distinct(t);
                assert forall|k: u32| #[trigger] seq_lookup(t, k) == if k == id {
                    Some(v)
                } else {
                    seq_lookup(s, k)
                } by {
                    lemma_lookup_entry(t, p as int);
                    if k != id {
                        if seq_has_key(s, k) {
                            let i = choose|i: int| 0 <= i < s.len() && (#[trigger] s[i]).0 == k;
                            lemma_lookup_entry(s, i);
                            assert(t[i] == s[i]);
                            lemma_lookup_entry(t, i);
                        } else {
                            assert(!seq_has_key(t, k)) by {
                                if seq_has_key(t, k) {
                                    let i = choose|i: int|
                                        0 <= i < t.len() && (#[trigger] t[i]).0 == k;
                                    assert(s[i].0 == k);
                                }
                            }
                        }
                    }
                }
                assert(seq_has_key(s, id));
            }
        } else {
            self.entries.insert(p, (id, v));
            proof {
                let t = self@;
                assert(t == s.insert(p as int, (id, v)));
                assert forall|i: int, j: int| 0 <= i < j < t.len() implies (#[trigger] t[i]).0 < (
                #[trigger] t[j]).0 by {
                    if j < p {
                    } else if j == p {
                    } else if i < p {
                        assert(t[j] == s[j - 1]);
                        if p < s.len() {
                            assert(s[p as int].0 > id);
                        }
                    } else if i == p {
                        assert(t[j] == s[j - 1]);
                        assert(s[p as int].0 > id);
                    } else {
                        assert(t[j] == s[j - 1]);
                        assert(t[i] == s[i - 1]);
                    }
                }
                lemma_keys_increasing_distinct(t);
                assert(!seq_has_key(s, id)) by {
                    if seq_has_key(s, id) {
                        let i = choose|i: int| 0 <= i < s.len() && (#[trigger] s[i]).0 == id;
                        if i < p {
                        } else {
                            assert(s[p as int].0 > id);
                        }
                    }
                }
                assert forall|k: u32| #[trigger] seq_lookup(t, k) == if k == id {
                    Some(v)
                } else {
                    seq_lookup(s, k)
                } by {
                    lemma_lookup_entry(t, p as int);
                    if k != id {
                        if seq_has_key(s, k) {
                            let i = choose|i: int| 0 <= i < s.len() && (#[trigger] s[i]).0 == k;
                            lemma_lookup_entry(s, i);
                            if i < p {
                                assert(t[i] == s[i]);
                                lemma_lookup_entry(t, i);
                            } else {
                                assert(t[i + 1] == s[i]);
                                lemma_lookup_entry(t, i + 1);
                            }
                        } else {
                            assert(!seq_has_key(t, k)) by {
                                if seq_has_key(t, k) {
                                    let i = choose|i: int|
                                        0 <= i < t.len() && (#[trigger] t[i]).0 == k;
                                    if i < p {
                                        assert(s[i].0 == k);
                                    } else if i > p {
                                        assert(s[i - 1].0 == k);
                                    }
                                }
                            }
                        }
                    }
                }
            }
        }
    }
}

impl<V: Copy> NodeTable<V> {
    /// The entry at position `i` in identifier order.
    pub fn entry(&self, i: usize) -> (r: (u32, V))
        requires
            i < self@.len(),
        ensures
            r == self@[i as int],
    {
        self.entries[i]
    }

    /// An identical table.
    pub fn copy(&self) -> (r: Self)
        ensures
            r@ == self@,
    {
        let mut entries: Vec<(u32, V)> = Vec::new();
        let mut i: usize = 0;
        while i < self.entries.len()
            invariant
                0 <= i <= self.entries@.len(),
                entries@ == self.entries@.subrange(0, i as int),
            decreases self.entries@.len() - i,
        {
            entries.push(self.entries[i]);
            i = i + 1;
            assert(entries@ =~= self.entries@.subrange(0, i as int));
        }
        assert(self.entries@.subrange(0, self.entries@.len() as int) =~= self.entries@);
        NodeTable { entries }
    }

}

/// Increasing identifiers are distinct.
pub proof fn lemma_keys_increasing_distinct<V>(s: Seq<(u32, V)>)
    requires
        ids_increasing(s),
    ensures
        keys_distinct(s),
{
    assert forall|i: int, j: int| 0 <= i < s.len() && 0 <= j < s.len() && i != j implies (
    #[trigger] s[i]).0 != (#[trigger] s[j]).0 by {
        if i < j {
        } else {
        }
    }
}

/// The value that `m` stores for `k`, if any.
pub open spec fn map_lookup<V>(m: Map<u32, V>, k: u32) -> Option<V> {
    if m.contains_key(k) {
        Some(m[k])
    } else {
        None
    }
}

/// The entries of `m` in increasing identifier order.
pub open spec fn sorted_entries<V>(m: Map<u32, V>) -> Seq<(u32, V)> {
    choose|s: Seq<(u32, V)>|
        ids_increasing(s) && forall|k: u32| #[trigger] seq_lookup(s, k) == map_lookup(m, k)
}

/// Dropping the first entry of a sequence sorted by identifier removes the
/// lookup of its identifier and keeps the others.
proof fn lemma_lookup_drop_first<V>(s: Seq<(u32, V)>, k: u32)
    requires
        ids_increasing(s),
        s.len() > 0,
    ensures
        seq_lookup(s.drop_first(), k) == if k == s[0].0 {
            None
        } else {
            seq_lookup(s, k)
        },
{
    let t = s.drop_first();
    lemma_keys_increasing_distinct(s);
    assert(ids_increasing(t)) by {
        assert forall|i: int, j: int| 0 <= i < j < t.len() implies (#[trigger] t[i]).0 < (
        #[trigger] t[j]).0 by {
            assert(t[i] == s[i + 1] && t[j] == s[j + 1]);
        }
    }
    lemma_keys_increasing_distinct(t);
    if k == s[0].0 {
        if seq_has_key(t, k) {
            let i = choose|i: int| 0 <= i < t.len() && (#[trigger] t[i]).0 == k;
            assert(s[i + 1].0 == k);
        }
    } else if seq_has_key(s, k) {
        let i = choose|i: int| 0 <= i < s.len() && (#[trigger] s[i]).0 == k;
        assert(i > 0);
        assert(t[i - 1] == s[i]);
        lemma_lookup_entry(s, i);
        lemma_lookup_entry(t, i - 1);
    } else if seq_has_key(t, k) {
        let i = choose|i: int| 0 <= i < t.len() && (#[trigger] t[i]).0 == k;
        assert(s[i + 1].0 == k);
    }
}

/// Two sequences sorted by identifier with the same lookups are equal.
proof fn lemma_sorted_unique<V>(s: Seq<(u32, V)>, t: Seq<(u32, V)>)
    requires
        ids_increasing(s),
        ids_increasing(t),
        forall|k: u32| #[trigger] seq_lookup(s, k) == seq_lookup(t, k),
    ensures
        s == t,
    decreases s.len(),
{
    lemma_keys_increasing_distinct(s);
    lemma_keys_increasing_distinct(t);
    if s.len() == 0 {
        if t.len() > 0 {
            lemma_lookup_entry(t, 0);
            assert(seq_lookup(s, t[0].0) is None);
        }
        assert(s =~= t);
    } else if t.len() == 0 {
        lemma_lookup_entry(s, 0);
        assert(seq_lookup(t, s[0].0) is None);
    } else {
        let a = s[0].0;
        let b = t[0].0;
        lemma_lookup_entry(s, 0);
        lemma_lookup_entry(t, 0);
        assert(seq_lookup(t, a) is Some);
        let j = choose|j: int| 0 <= j < t.len() && (#[trigger] t[j]).0 == a;
        assert(b <= a) by {
            if j > 0 {
                assert(t[0].0 < t[j].0);
            }
        }
        assert(seq_lookup(s, b) is Some);
        let i = choose|i: int| 0 <= i < s.len() && (#[trigger] s[i]).0 == b;
        assert(a <= b) by {
            if i > 0 {
                assert(s[0].0 < s[i].0);
            }
        }
        assert(s[0] == t[0]);
        assert forall|k: u32| #[trigger] seq_lookup(s.drop_first(), k) == seq_lookup(
            t.drop_first(),
            k,
        ) by {
            lemma_lookup_drop_first(s, k);
            lemma_lookup_drop_first(t, k);
        }
        assert(ids_increasing(s.drop_first())) by {
            assert forall|x: int, y: int| 0 <= x < y < s.drop_first().len() implies (
            #[trigger] s.drop_first()[x]).0 < (#[trigger] s.drop_first()[y]).0 by {
                assert(s.drop_first()[x] == s[x + 1] && s.drop_first()[y] == s[y + 1]);
            }
        }
        assert(ids_increasing(t.drop_first())) by {
            assert forall|x: int, y: int| 0 <= x < y < t.drop_first().len() implies (
            #[trigger] t.drop_first()[x]).0 < (#[trigger] t.drop_first()[y]).0 by {
                assert(t.drop_first()[x] == t[x + 1] && t.drop_first()[y] == t[y + 1]);
            }
        }
        lemma_sorted_unique(s.drop_first(), t.drop_first());
        assert(s =~= seq![s[0]] + s.drop_first());
        assert(t =~= seq![t[0]] + t.drop_first());
    }
}

/// A sequence sorted by identifier with the lookups of `m` is the sorted
/// entries of `m`.
pub proof fn lemma_sorted_entries<V>(s: Seq<(u32, V)>, m: Map<u32, V>)
    requires
        ids_increasing(s),
        forall|k: u32| #[trigger] seq_lookup(s, k) == map_lookup(m, k),
    ensures
        sorted_entries(m) == s,
{
    let c = sorted_entries(m);
    assert(ids_increasing(c) && forall|k: u32| #[trigger] seq_lookup(c, k) == map_lookup(m, k));
    lemma_sorted_unique(c, s);
}

/// A value found by lookup is the value of some entry.
pub proof fn lemma_lookup_is_entry<K, V>(s: Seq<(K, V)>, k: K)
    requires
        seq_lookup(s, k) is Some,
    ensures
        exists|i: int| 0 <= i < s.len() && s[i].0 == k && s[i].1 == seq_lookup(s, k).unwrap(),
{
    let i = choose|i: int| 0 <= i < s.len() && (#[trigger] s[i]).0 == k;
    assert(s[i].0 == k && s[i].1 == seq_lookup(s, k).unwrap());
}

/// After storing `v` for `id` in a node table, every stored value satisfies a
/// property that `v` and all earlier values satisfy.
pub proof fn lemma_node_table_values<V>(pre: NodeTable<V>, post: NodeTable<V>, id: u32, v: V, p: spec_fn(V) -> bool)
    requires
        post.wf(),
        forall|k: u32| #[trigger] post.lookup(k) == if k == id {
            Some(v)
        } else {
            pre.lookup(k)
        },
        forall|i: int| 0 <= i < pre@.len() ==> p((#[trigger] pre@[i]).1),
        p(v),
    ensures
        forall|i: int| 0 <= i < post@.len() ==> p((#[trigger] post@[i]).1),
{
    lemma_keys_increasing_distinct(post@);
    assert forall|i: int| 0 <= i < post@.len() implies p((#[trigger] post@[i]).1) by {
        let k = post@[i].0;
        lemma_lookup_entry(post@, i);
        assert(post.lookup(k) == Some(post@[i].1));
        if k != id {
            assert(pre.lookup(k) == Some(post@[i].1));
            lemma_lookup_is_entry(pre@, k);
            let j = choose|j: int| 0 <= j < pre@.len() && pre@[j].0 == k && pre@[j].1 == seq_lookup(pre@, k).unwrap();
            assert(p(pre@[j].1));
        }
    }
}

/// A table from keys to values in insertion order.
pub struct Table<K, V> {
    entries: Vec<(K, V)>,
}

impl<K, V> View for Table<K, V> {
    type V = Seq<(K, V)>;

    closed spec fn view(&self) -> Seq<(K, V)> {
        self.entries@
    }
}

impl<K: TableKey + Copy, V> Table<K, V> {
    /// No key occurs twice.
    pub open spec fn wf(&self) -> bool {
        keys_distinct(self@)
    }

    /// The value stored for `k`, if any.
    pub open spec fn lookup(&self, k: K) -> Option<V> {
        seq_lookup(self@, k)
    }

    /// An empty table.
    pub fn new() -> (r: Self)
        ensures
            r@ == Seq::<(K, V)>::empty(),
            r.wf(),
    {
        Table { entries: Vec::new() }
    }

    /// The number of entries.
    pub fn len(&self) -> (r: usize)
        ensures
            r == self@.len(),
    {
        self.entries.len()
    }

    /// The key of the entry at position `i` in insertion order.
    pub fn key_at(&self, i: usize) -> (r: K)
        requires
            i < self@.len(),
        ensures
            r == self@[i as int].0,
    {
        self.entries[i].0
    }

    /// The value of the entry at position `i` in insertion order.
    pub fn value_at(&self, i: usize) -> (r: &V)
        requires
            i < self@.len(),
        ensures
            *r == self@[i as int].1,
    {
        &self.entries[i].1
    }

    /// The position of the entry for `k`, if any.
    pub fn position(&self, k: &K) -> (r: Option<usize>)
        requires
            self.wf(),
        ensures
            match r {
                Some(i) => i < self@.len() && self@[i as int].0 == *k,
                None => !seq_has_key(self@, *k),
            },
    {
        let mut i: usize = 0;
        while i < self.entries.len()
            invariant
                0 <= i <= self.entries@.len(),
                forall|j: int| 0 <= j < i ==> (#[trigger] self.entries@[j]).0 != *k,
            decreases self.entries@.len() - i,
        {
            if self.entries[i].0.same_key(k) {
                return Some(i);
            }
            i = i + 1;
        }
        None
    }

    /// Whether `k` has an entry.
    pub fn contains_key(&self, k: &K) -> (r: bool)
        requires
            self.wf(),
        ensures
            r == seq_has_key(self@, *k),
    {
        self.position(k).is_some()
    }

    /// The value stored for `k`, if any.
    pub fn get(&self, k: &K) -> (r: Option<&V>)
        requires
            self.wf(),
        ensures
            match r {
                Some(v) => self.lookup(*k) == Some(*v),
                None => self.lookup(*k) is None,
            },
    {
        match self.position(k) {
            Some(i) => {
                proof {
                    lemma_lookup_entry(self@, i as int);
                }
                Some(&self.entries[i].1)
            },
            None => None,
        }
    }

    /// Stores `v` for `k`: in place of an earlier value, or as a new last entry.
    pub fn insert(&mut self, k: K, v: V)
        requires
            old(self).wf(),
        ensures
            final(self).wf(),
            forall|k2: K| #[trigger]
                final(self).lookup(k2) == if k2 == k {
                    Some(v)
                } else {
                    old(self).lookup(k2)
                },
            !seq_has_key(old(self)@, k) ==> final(self)@ == old(self)@.push((k, v)),
            forall|i: int|
                0 <= i < old(self)@.len() && old(self)@[i].0 == k ==> final(self)@ == old(
                    self,
                )@.update(i, (k, v)),
    {
        let ghost s = self@;
        match self.position(&k) {
            Some(p) => {
                self.entries.set(p, (k, v));
                proof {
                    let t = self@;
                    assert(t == s.update(p as int, (k, v)));
                    assert(keys_distinct(t));
                    assert forall|k2: K| #[trigger] seq_lookup(t, k2) == if k2 == k {
                        Some(v)
                    } else {
                        seq_lookup(s, k2)
                    } by {
                        lemma_lookup_entry(t, p as int);
                        if k2 != k {
                            if seq_has_key(s, k2) {
                                let i = choose|i: int|
                                    0 <= i < s.len() && (#[trigger] s[i]).0 == k2;
                                lemma_lookup_entry(s, i);
                                assert(t[i] == s[i]);
                                lemma_lookup_entry(t, i);
                            } else {
                                assert(!seq_has_key(t, k2)) by {
                                    if seq_has_key(t, k2) {
                                        let i = choose|i: int|
                                            0 <= i < t.len() && (#[trigger] t[i]).0 == k2;
                                        assert(s[i].0 == k2);
                                    }
                                }
                            }
                        }
                    }
                    assert forall|i: int|
                        0 <= i < s.len() && s[i].0 == k implies t == s.update(i, (k, v)) by {
                        assert(i == p);
                    }
                }
            },
            None => {
                self.entries.push((k, v));
                proof {
                    let t = self@;
                    assert(t == s.push((k, v)));
                    assert(keys_distinct(t));
                    assert forall|k2: K| #[trigger] seq_lookup(t, k2) == if k2 == k {
                        Some(v)
                    } else {
                        seq_lookup(s, k2)
                    } by {
                        lemma_lookup_entry(t, s.len() as int);
                        if k2 != k {
                            if seq_has_key(s, k2) {
                                let i = choose|i: int|
                                    0 <= i < s.len() && (#[trigger] s[i]).0 == k2;
                                lemma_lookup_entry(s, i);
                                assert(t[i] == s[i]);
                                lemma_lookup_entry(t, i);
                            } else {
                                assert(!seq_has_key(t, k2)) by {
                                    if seq_has_key(t, k2) {
                                        let i = choose|i: int|
                                            0 <= i < t.len() && (#[trigger] t[i]).0 == k2;
                                        assert(s[i].0 == k2);
                                    }
                                }
                            }
                        }
                    }
                }
            },
        }
    }
}

} // verus!
