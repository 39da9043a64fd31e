//! Keyed tables: rows in the order in which they were inserted, with no key
//! occurring twice. The contracts speak of a table through the sequence of
//! its entries.

use vstd::prelude::*;
use crate::hashes::RowKey;

verus! {

/// One row of a table as contracts see it: the key and the view of the value.
pub struct Entry<K, W> {
    pub key: K,
    pub value: W,
}

/// Whether some entry of `s` has the key `k`.
pub open spec fn has_key<K, W>(s: Seq<Entry<K, W>>, k: K) -> bool {
    exists|i: int| 0 <= i < s.len() && (#[trigger] s[i]).key == k
}

/// An index at which the key `k` stands in `s`, where there is one.
pub open spec fn position<K, W>(s: Seq<Entry<K, W>>, k: K) -> int {
    choose|i: int| 0 <= i < s.len() && (#[trigger] s[i]).key == k
}

/// The value stored under `k`, if any.
pub open spec fn lookup<K, W>(s: Seq<Entry<K, W>>, k: K) -> Option<W> {
    if has_key(s, k) {
        Some(s[position(s, k)].value)
    } else {
        None
    }
}

/// No key occurs in two entries.
pub open spec fn distinct_keys<K, W>(s: Seq<Entry<K, W>>) -> bool {
    forall|i: int, j: int|
        0 <= i < j < s.len() ==> (#[trigger] s[i]).key != (#[trigger] s[j]).key
}

/// The entries among the first `n` of `s` that satisfy `p`, in their order.
pub open spec fn kept<K, W>(s: Seq<Entry<K, W>>, p: spec_fn(Entry<K, W>) -> bool, n: int) -> Seq<
    Entry<K, W>,
>
    decreases n,
{
    if n <= 0 {
        Seq::empty()
    } else if p(s[n - 1]) {
        kept(s, p, n - 1).push(s[n - 1])
    } else {
        kept(s, p, n - 1)
    }
}

/// The entries of `s` that satisfy `p`, in their order.
pub open spec fn retained<K, W>(s: Seq<Entry<K, W>>, p: spec_fn(Entry<K, W>) -> bool) -> Seq<
    Entry<K, W>,
> {
    kept(s, p, s.len() as int)
}

/// With distinct keys, the entry at index `i` is the one that `lookup` finds.
pub proof fn lemma_lookup_at<K, W>(s: Seq<Entry<K, W>>, i: int)
    requires
        distinct_keys(s),
        0 <= i < s.len(),
    ensures
        has_key(s, s[i].key),
        position(s, s[i].key) == i,
        lookup(s, s[i].key) == Some(s[i].value),
{
    let k = s[i].key;
    assert(has_key(s, k));
    let j = position(s, k);
    assert(0 <= j < s.len() && s[j].key == k);
    if j < i {
        assert(s[j].key != s[i].key);
    }
    if i < j {
        assert(s[i].key != s[j].key);
    }
}

/// Appending an entry with a fresh key keeps the keys distinct and changes
/// only what is found under that key.
pub proof fn lemma_push_entry<K, W>(s: Seq<Entry<K, W>>, e: Entry<K, W>)
    requires
        distinct_keys(s),
        !has_key(s, e.key),
    ensures
        distinct_keys(s.push(e)),
        forall|k: K| #[trigger]
            lookup(s.push(e), k) == (if k == e.key {
                Some(e.value)
            } else {
                lookup(s, k)
            }),
{
    let t = s.push(e);
    assert forall|i: int, j: int| 0 <= i < j < t.len() implies (#[trigger] t[i]).key != (
    #[trigger] t[j]).key by {
        if j == s.len() {
            assert(s[i].key != e.key);
        } else {
            assert(s[i].key != s[j].key);
        }
    }
    assert forall|k: K| #[trigger]
        lookup(t, k) == (if k == e.key {
            Some(e.value)
        } else {
            lookup(s, k)
        }) by {
        if k == e.key {
            assert(t[s.len() as int].key == k);
            lemma_lookup_at(t, s.len() as int);
        } else if has_key(s, k) {
            let i = position(s, k);
            assert(t[i].key == k);
            lemma_lookup_at(t, i);
        } else {
            if has_key(t, k) {
                let i = position(t, k);
                assert(i < s.len());
                assert(s[i].key == k);
            }
        }
    }
}

/// What `kept` holds: each of its entries is an entry among the first `n` of
/// `s` that satisfies `p`, and each such entry is in it.
pub proof fn lemma_kept<K, W>(s: Seq<Entry<K, W>>, p: spec_fn(Entry<K, W>) -> bool, n: int)
    requires
        0 <= n <= s.len(),
    ensures
        kept(s, p, n).len() <= n,
        forall|i: int|
            0 <= i < kept(s, p, n).len() ==> p(#[trigger] kept(s, p, n)[i]) && exists|j: int|
                0 <= j < n && #[trigger] s[j] == kept(s, p, n)[i],
        forall|j: int|
            0 <= j < n && p(#[trigger] s[j]) ==> exists|i: int|
                0 <= i < kept(s, p, n).len() && #[trigger] kept(s, p, n)[i] == s[j],
        distinct_keys(s) ==> distinct_keys(kept(s, p, n)),
    decreases n,
{
    if n > 0 {
        lemma_kept(s, p, n - 1);
        let a = kept(s, p, n - 1);
        let b = kept(s, p, n);
        if p(s[n - 1]) {
            assert(b == a.push(s[n - 1]));
            assert forall|i: int| 0 <= i < b.len() implies p(#[trigger] b[i]) && exists|j: int|
                0 <= j < n && #[trigger] s[j] == b[i] by {
                if i < a.len() {
                    assert(b[i] == a[i]);
                    let j = choose|j: int| 0 <= j < n - 1 && #[trigger] s[j] == a[i];
                    assert(s[j] == b[i]);
                } else {
                    assert(s[n - 1] == b[i]);
                }
            }
            assert forall|j: int| 0 <= j < n && p(#[trigger] s[j]) implies exists|i: int|
                0 <= i < b.len() && #[trigger] b[i] == s[j] by {
                if j < n - 1 {
                    let i = choose|i: int| 0 <= i < a.len() && #[trigger] a[i] == s[j];
                    assert(b[i] == s[j]);
                } else {
                    assert(b[a.len() as int] == s[j]);
                }
            }
            if distinct_keys(s) {
                assert forall|i: int, j: int| 0 <= i < j < b.len() implies (#[trigger] b[i]).key
                    != (#[trigger] b[j]).key by {
                    if j < a.len() {
                        assert(a[i].key != a[j].key);
                    } else {
                        let m = choose|m: int| 0 <= m < n - 1 && #[trigger] s[m] == a[i];
                        assert(s[m].key != s[n - 1].key);
                    }
                }
            }
        } else {
            assert(b == a);
            assert forall|i: int| 0 <= i < b.len() implies p(#[trigger] b[i]) && exists|j: int|
                0 <= j < n && #[trigger] s[j] == b[i] by {
                let j = choose|j: int| 0 <= j < n - 1 && #[trigger] s[j] == a[i];
                assert(s[j] == b[i]);
            }
        }
    }
}

/// What is found in the entries retained from a table with distinct keys.
pub proof fn lemma_retained<K, W>(s: Seq<Entry<K, W>>, p: spec_fn(Entry<K, W>) -> bool)
    requires
        distinct_keys(s),
    ensures
        distinct_keys(retained(s, p)),
        forall|k: K| #[trigger]
            lookup(retained(s, p), k) == (if has_key(s, k) && p(s[position(s, k)]) {
                lookup(s, k)
            } else {
                None
            }),
{
    let r = retained(s, p);
    lemma_kept(s, p, s.len() as int);
    assert forall|k: K| #[trigger]
        lookup(r, k) == (if has_key(s, k) && p(s[position(s, k)]) {
            lookup(s, k)
        } else {
            None
        }) by {
        if has_key(r, k) {
            let i = position(r, k);
            let j = choose|j: int| 0 <= j < s.len() && #[trigger] s[j] == r[i];
            lemma_lookup_at(s, j);
            lemma_lookup_at(r, i);
        } else if has_key(s, k) && p(s[position(s, k)]) {
            let j = position(s, k);
            let i = choose|i: int| 0 <= i < r.len() && #[trigger] r[i] == s[j];
            assert(r[i].key == k);
        }
    }
}

/// What inserting an entry gives where a present key wins: `s` itself if
/// the key is there already, else `s` with the entry appended.
pub open spec fn inserted<K, W>(s: Seq<Entry<K, W>>, e: Entry<K, W>) -> Seq<Entry<K, W>> {
    if has_key(s, e.key) {
        s
    } else {
        s.push(e)
    }
}

/// What inserting the first `n` entries of `es` in turn gives.
pub open spec fn inserted_all<K, W>(s: Seq<Entry<K, W>>, es: Seq<Entry<K, W>>, n: int) -> Seq<
    Entry<K, W>,
>
    decreases n,
{
    if n <= 0 {
        s
    } else {
        inserted(inserted_all(s, es, n - 1), es[n - 1])
    }
}

/// Inserting keeps the keys distinct, keeps what was found before, and makes
/// the entry's key present.
pub proof fn lemma_inserted<K, W>(s: Seq<Entry<K, W>>, e: Entry<K, W>)
    requires
        distinct_keys(s),
    ensures
        distinct_keys(inserted(s, e)),
        forall|k: K| #[trigger] has_key(inserted(s, e), k) <==> has_key(s, k) || k == e.key,
        forall|k: K| has_key(s, k) ==> #[trigger] lookup(inserted(s, e), k) == lookup(s, k),
        !has_key(s, e.key) ==> lookup(inserted(s, e), e.key) == Some(e.value),
{
    if !has_key(s, e.key) {
        lemma_push_entry(s, e);
        assert forall|k: K| #[trigger] has_key(s.push(e), k) <==> has_key(s, k) || k == e.key by {
            assert(lookup(s.push(e), k) == (if k == e.key {
                Some(e.value)
            } else {
                lookup(s, k)
            }));
        }
        assert forall|k: K| has_key(s, k) implies #[trigger] lookup(s.push(e), k) == lookup(
            s,
            k,
        ) by {
            assert(lookup(s.push(e), k) == (if k == e.key {
                Some(e.value)
            } else {
                lookup(s, k)
            }));
        }
        assert(lookup(s.push(e), e.key) == Some(e.value));
    }
}

/// Inserting several entries keeps the keys distinct and what was found
/// before; the keys present afterwards are the old ones and the inserted.
pub proof fn lemma_inserted_all<K, W>(s: Seq<Entry<K, W>>, es: Seq<Entry<K, W>>, n: int)
    requires
        distinct_keys(s),
        0 <= n <= es.len(),
    ensures
        distinct_keys(inserted_all(s, es, n)),
        forall|k: K| #[trigger]
            has_key(inserted_all(s, es, n), k) <==> has_key(s, k) || exists|i: int|
                0 <= i < n && (#[trigger] es[i]).key == k,
        forall|k: K| has_key(s, k) ==> #[trigger] lookup(inserted_all(s, es, n), k) == lookup(s, k),
    decreases n,
{
    if n > 0 {
        lemma_inserted_all(s, es, n - 1);
        let a = inserted_all(s, es, n - 1);
        let b = inserted_all(s, es, n);
        lemma_inserted(a, es[n - 1]);
        assert forall|k: K| #[trigger]
            has_key(b, k) <==> has_key(s, k) || exists|i: int|
                0 <= i < n && (#[trigger] es[i]).key == k by {
            if has_key(b, k) {
                if has_key(a, k) {
                    if !has_key(s, k) {
                        let i = choose|i: int| 0 <= i < n - 1 && (#[trigger] es[i]).key == k;
                        assert(0 <= i < n && es[i].key == k);
                    }
                } else {
                    assert(es[n - 1].key == k);
                }
            }
            if exists|i: int| 0 <= i < n && (#[trigger] es[i]).key == k {
                let i = choose|i: int| 0 <= i < n && (#[trigger] es[i]).key == k;
                if i < n - 1 {
                    assert(has_key(a, k));
                }
            }
        }
        assert forall|k: K| has_key(s, k) implies #[trigger] lookup(b, k) == lookup(s, k) by {
            assert(has_key(a, k));
            assert(lookup(a, k) == lookup(s, k));
        }
    }
}

/// After several entries were inserted, the old entries stand where they
/// stood, and every entry is an old one or one of the inserted.
pub proof fn lemma_inserted_all_entries<K, W>(s: Seq<Entry<K, W>>, es: Seq<Entry<K, W>>, n: int)
    requires
        0 <= n <= es.len(),
    ensures
        s.len() <= inserted_all(s, es, n).len(),
        forall|j: int| 0 <= j < s.len() ==> inserted_all(s, es, n)[j] == s[j],
        forall|j: int|
            s.len() <= j < inserted_all(s, es, n).len() ==> exists|i: int|
                0 <= i < n && es[i] == #[trigger] inserted_all(s, es, n)[j],
    decreases n,
{
    if n > 0 {
        lemma_inserted_all_entries(s, es, n - 1);
        let a = inserted_all(s, es, n - 1);
        let b = inserted_all(s, es, n);
        assert forall|j: int| s.len() <= j < b.len() implies exists|i: int|
            0 <= i < n && es[i] == #[trigger] b[j] by {
            if j < a.len() {
                let i = choose|i: int| 0 <= i < n - 1 && es[i] == a[j];
                assert(0 <= i < n && es[i] == b[j]);
            } else {
                assert(es[n - 1] == b[j]);
            }
        }
    }
}

/// Where the key of one of the inserted entries was not there before and
/// no other of them has it, that entry is what is found under the key.
pub proof fn lemma_inserted_all_at<K, W>(
    s: Seq<Entry<K, W>>,
    es: Seq<Entry<K, W>>,
    n: int,
    i: int,
)
    requires
        distinct_keys(s),
        0 <= i < n <= es.len(),
        !has_key(s, es[i].key),
        forall|a: int, b: int| 0 <= a < b < n ==> (#[trigger] es[a]).key != (#[trigger] es[b]).key,
    ensures
        lookup(inserted_all(s, es, n), es[i].key) == Some(es[i].value),
    decreases n,
{
    let k = es[i].key;
    let before = inserted_all(s, es, n - 1);
    lemma_inserted_all(s, es, n - 1);
    lemma_inserted(before, es[n - 1]);
    if i == n - 1 {
        if has_key(before, k) {
            let j = choose|j: int| 0 <= j < n - 1 && (#[trigger] es[j]).key == k;
            assert(es[j].key != es[n - 1].key);
        }
    } else {
        lemma_inserted_all_at(s, es, n - 1, i);
        assert(has_key(before, k));
    }
}

/// Inserting entries whose keys are all present changes nothing.
pub proof fn lemma_inserted_all_present<K, W>(s: Seq<Entry<K, W>>, es: Seq<Entry<K, W>>, n: int)
    requires
        0 <= n <= es.len(),
        forall|i: int| 0 <= i < n ==> has_key(s, (#[trigger] es[i]).key),
    ensures
        inserted_all(s, es, n) == s,
    decreases n,
{
    if n > 0 {
        lemma_inserted_all_present(s, es, n - 1);
        assert(has_key(s, es[n - 1].key));
    }
}

/// What writing an entry gives where the written value wins: the entry
/// replaces the one with its key, or is appended if there is none.
pub open spec fn upserted<K, W>(s: Seq<Entry<K, W>>, e: Entry<K, W>) -> Seq<Entry<K, W>> {
    if has_key(s, e.key) {
        s.update(position(s, e.key), e)
    } else {
        s.push(e)
    }
}

/// Writing keeps the keys distinct and changes only what is found under
/// the written key.
pub proof fn lemma_upserted<K, W>(s: Seq<Entry<K, W>>, e: Entry<K, W>)
    requires
        distinct_keys(s),
    ensures
        distinct_keys(upserted(s, e)),
        forall|k: K| #[trigger]
            lookup(upserted(s, e), k) == (if k == e.key {
                Some(e.value)
            } else {
                lookup(s, k)
            }),
{
    if has_key(s, e.key) {
        let p = position(s, e.key);
        let t = s.update(p, e);
        assert forall|i: int, j: int| 0 <= i < j < t.len() implies (#[trigger] t[i]).key != (
        #[trigger] t[j]).key by {
            assert(s[i].key != s[j].key);
        }
        assert forall|k: K| #[trigger]
            lookup(t, k) == (if k == e.key {
                Some(e.value)
            } else {
                lookup(s, k)
            }) by {
            if k == e.key {
                assert(t[p].key == k);
                lemma_lookup_at(t, p);
            } else if has_key(s, k) {
                let i = position(s, k);
                assert(t[i] == s[i]);
                lemma_lookup_at(t, i);
            } else {
                if has_key(t, k) {
                    let i = position(t, k);
                    assert(s[i].key == k);
                }
            }
        }
    } else {
        lemma_push_entry(s, e);
    }
}

/// One stored row.
pub struct Row<K, V> {
    key: K,
    value: V,
}

/// A table keyed by `K`, in insertion order.
pub struct Table<K, V> {
    rows: Vec<Row<K, V>>,
}

impl<K: RowKey, V: View> View for Table<K, V> {
    type V = Seq<Entry<K, V::V>>;

    closed spec fn view(&self) -> Seq<Entry<K, V::V>> {
        Seq::new(
            self.rows@.len(),
            |i: int| Entry { key: self.rows@[i].key, value: self.rows@[i].value@ },
        )
    }
}

impl<K: RowKey, V: View> Table<K, V> {
    /// The table's invariant: no key occurs twice.
    pub closed spec fn wf(&self) -> bool {
        distinct_keys(self@)
    }

    /// What `wf` says.
    pub proof fn lemma_wf(&self)
        ensures
            self.wf() == distinct_keys(self@),
    {
    }

    /// An empty table.
    pub fn new() -> (t: Self)
        ensures
            t@ == Seq::<Entry<K, V::V>>::empty(),
            t.wf(),
    {
        let t = Table { rows: Vec::new() };
        assert(t@ =~= Seq::<Entry<K, V::V>>::empty());
        t
    }

    /// The number of rows.
    pub fn len(&self) -> (n: usize)
        ensures
            n == self@.len(),
    {
        self.rows.len()
    }

    /// The key of the row at index `i`.
    pub fn key_at(&self, i: usize) -> (k: K)
        requires
            i < self@.len(),
        ensures
            k == self@[i as int].key,
    {
        self.rows[i].key
    }

    /// The value of the row at index `i`.
    pub fn value_at(&self, i: usize) -> (v: &V)
        requires
            i < self@.len(),
        ensures
            v@ == self@[i as int].value,
    {
        &self.rows[i].value
    }

    /// The index of the row with key `k`, if there is one.
    pub fn find(&self, k: &K) -> (r: Option<usize>)
        ensures
            match r {
                Some(i) => i < self@.len() && self@[i as int].key == *k,
                None => !has_key(self@, *k),
            },
    {
        let mut i: usize = 0;
        while i < self.rows.len()
            invariant
                i <= self.rows.len(),
                forall|j: int| 0 <= j < i ==> (#[trigger] self@[j]).key != *k,
            decreases self.rows.len() - i,
        {
            if self.rows[i].key.same(k) {
                return Some(i);
            }
            i += 1;
        }
        None
    }

    /// Whether a row has the key `k`.
    pub fn contains(&self, k: &K) -> (r: bool)
        ensures
            r == has_key(self@, *k),
    {
        self.find(k).is_some()
    }

    /// The value stored under `k`, if any.
    pub fn get(&self, k: &K) -> (r: Option<&V>)
        requires
            self.wf(),
        ensures
            match r {
                Some(v) => lookup(self@, *k) == Some(v@),
                None => lookup(self@, *k) is None,
            },
    {
        match self.find(k) {
            Some(i) => {
                proof {
                    lemma_lookup_at(self@, i as int);
                }
                Some(&self.rows[i].value)
            },
            None => None,
        }
    }

    /// Inserts a row unless its key is present already, and says whether it
    /// was inserted.
    pub fn insert_new(&mut self, k: K, v: V) -> (fresh: bool)
        requires
            old(self).wf(),
        ensures
            final(self).wf(),
            fresh == !has_key(old(self)@, k),
            final(self)@ == inserted(old(self)@, Entry { key: k, value: v@ }),
    {
        if self.contains(&k) {
            return false;
        }
        let ghost before = self@;
        let ghost e = Entry { key: k, value: v@ };
        self.rows.push(Row { key: k, value: v });
        proof {
            assert(self@ =~= before.push(e));
            lemma_push_entry(before, e);
        }
        true
    }

    /// Writes a row: replaces the value under `k`, or appends the row if
    /// the key is new.
    pub fn put(&mut self, k: K, v: V)
        requires
            old(self).wf(),
        ensures
            final(self).wf(),
            final(self)@ == upserted(old(self)@, Entry { key: k, value: v@ }),
    {
        let ghost before = self@;
        let ghost e = Entry { key: k, value: v@ };
        proof {
            lemma_upserted(before, e);
        }
        match self.find(&k) {
            Some(i) => {
                proof {
                    lemma_lookup_at(before, i as int);
                }
                self.rows.set(i, Row { key: k, value: v });
                assert(self@ =~= before.update(i as int, e));
            },
            None => {
                self.rows.push(Row { key: k, value: v });
                assert(self@ =~= before.push(e));
            },
        }
    }

    /// Keeps the rows whose mark is set. `marks[i]` says whether the row at
    /// index `i` satisfies `p`.
    pub(crate) fn retain_marked(
        &mut self,
        marks: &Vec<bool>,
        Ghost(p): Ghost<spec_fn(Entry<K, V::V>) -> bool>,
    )
        requires
            old(self).wf(),
            marks@.len() == old(self)@.len(),
            forall|i: int| 0 <= i < marks@.len() ==> marks@[i] == p(#[trigger] old(self)@[i]),
        ensures
            final(self).wf(),
            final(self)@ == retained(old(self)@, p),
    {
        let ghost orig = self@;
        let n = marks.len();
        let mut i: usize = 0;
        let mut j: usize = 0;
        while i < n
            invariant
                n == marks@.len(),
                n == orig.len(),
                j <= i <= n,
                self@.len() == j + (n - i),
                kept(orig, p, i as int).len() == j,
                forall|m: int| 0 <= m < j ==> #[trigger] self@[m] == kept(orig, p, i as int)[m],
                forall|m: int| 0 <= m < n - i ==> #[trigger] self@[j + m] == orig[i + m],
                forall|m: int| 0 <= m < n ==> marks@[m] == p(#[trigger] orig[m]),
            decreases n - i,
        {
            let ghost prev = self@;
            assert(prev[j + 0] == orig[i + 0]);
            if marks[i] {
                assert forall|m: int| 0 <= m < n - (i + 1) implies #[trigger] self@[j + 1 + m]
                    == orig[i + 1 + m] by {
                    assert(prev[j + (m + 1)] == orig[i + (m + 1)]);
                }
                j += 1;
            } else {
                self.rows.remove(j);
                assert(self@ =~= prev.remove(j as int));
                assert forall|m: int| 0 <= m < n - (i + 1) implies #[trigger] self@[j + m]
                    == orig[i + 1 + m] by {
                    assert(prev[j + (m + 1)] == orig[i + (m + 1)]);
                }
            }
            i += 1;
        }
        proof {
            assert(self@ =~= retained(orig, p));
            lemma_kept(orig, p, orig.len() as int);
        }
    }
}

} // verus!
