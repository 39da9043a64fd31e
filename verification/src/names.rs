//! Tables keyed by a name.

use vstd::prelude::*;
use crate::table::{distinct_keys, has_key, lemma_lookup_at, lemma_upserted, lookup, upserted, Entry};

verus! {

/// One named row.
pub struct NamedRow<V> {
    name: String,
    value: V,
}

/// A table keyed by names, in insertion order, with no name twice.
pub struct NameTable<V> {
    rows: Vec<NamedRow<V>>,
}

impl<V: View> View for NameTable<V> {
    type V = Seq<Entry<Seq<char>, V::V>>;

    closed spec fn view(&self) -> Seq<Entry<Seq<char>, V::V>> {
        Seq::new(
            self.rows@.len(),
            |i: int| Entry { key: self.rows@[i].name@, value: self.rows@[i].value@ },
        )
    }
}

impl<V: View> NameTable<V> {
    /// The table's invariant: no name occurs twice.
    pub closed spec fn wf(&self) -> bool {
        distinct_keys(self@)
    }

    /// What `wf` says.
    pub proof fn lemma_wf(&self)
        ensures
            self.wf() == distinct_keys(self@),
    {
    }

    /// An empty table.
    pub fn new() -> (t: Self)
        ensures
            t@ == Seq::<Entry<Seq<char>, V::V>>::empty(),
            t.wf(),
    {
        let t = NameTable { rows: Vec::new() };
        assert(t@ =~= Seq::<Entry<Seq<char>, V::V>>::empty());
        t
    }

    /// The number of rows.
    pub fn len(&self) -> (n: usize)
        ensures
            n == self@.len(),
    {
        self.rows.len()
    }

    /// The name of the row at index `i`.
    pub fn name_at(&self, i: usize) -> (r: String)
        requires
            i < self@.len(),
        ensures
            r@ == self@[i as int].key,
    {
        self.rows[i].name.clone()
    }

    /// The value of the row at index `i`.
    pub fn value_at(&self, i: usize) -> (v: &V)
        requires
            i < self@.len(),
        ensures
            v@ == self@[i as int].value,
    {
        &self.rows[i].value
    }

    fn find(&self, name: &String) -> (r: Option<usize>)
        ensures
            match r {
                Some(i) => i < self@.len() && self@[i as int].key == name@,
                None => !has_key(self@, name@),
            },
    {
        let mut i: usize = 0;
        while i < self.rows.len()
            invariant
                i <= self.rows.len(),
                forall|j: int| 0 <= j < i ==> (#[trigger] self@[j]).key != name@,
            decreases self.rows.len() - i,
        {
            if self.rows[i].name == *name {
                return Some(i);
            }
            i += 1;
        }
        None
    }

    /// The value stored under the name, if any.
    pub fn get(&self, name: &str) -> (r: Option<&V>)
        requires
            self.wf(),
        ensures
            match r {
                Some(v) => lookup(self@, name@) == Some(v@),
                None => lookup(self@, name@) is None,
            },
    {
        let owned = name.to_owned();
        match self.find(&owned) {
            Some(i) => {
                proof {
                    lemma_lookup_at(self@, i as int);
                }
                Some(&self.rows[i].value)
            },
            None => None,
        }
    }

    /// Writes a row: replaces the value under the name, or appends the row
    /// if the name is new.
    pub fn put(&mut self, name: String, v: V)
        requires
            old(self).wf(),
        ensures
            final(self).wf(),
            final(self)@ == upserted(old(self)@, Entry { key: name@, value: v@ }),
    {
        let ghost before = self@;
        let ghost e = Entry { key: name@, value: v@ };
        proof {
            lemma_upserted(before, e);
        }
        match self.find(&name) {
            Some(i) => {
                proof {
                    lemma_lookup_at(before, i as int);
                }
                self.rows.set(i, NamedRow { name, value: v });
                assert(self@ =~= before.update(i as int, e));
            },
            None => {
                self.rows.push(NamedRow { name, value: v });
                assert(self@ =~= before.push(e));
            },
        }
    }
}

} // verus!
