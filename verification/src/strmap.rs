//! A map from text to values, as a list of entries in which the last one of a key wins.
use vstd::prelude::*;

use crate::text::same;

verus! {

/// The map that the first `n` insertions make.
pub open spec fn map_of<V: View>(es: Seq<(String, V)>, n: int) -> Map<Seq<char>, V::V>
    decreases n,
{
    if n <= 0 || n > es.len() {
        Map::empty()
    } else {
        map_of(es, n - 1).insert(es[n - 1].0@, es[n - 1].1@)
    }
}

/// A map from text to values. Its view maps the characters of each key to the view of its value.
pub struct StrMap<V> {
    pub entries: Vec<(String, V)>,
}

impl<V: View> View for StrMap<V> {
    type V = Map<Seq<char>, V::V>;

    open spec fn view(&self) -> Map<Seq<char>, V::V> {
        map_of(self.entries@, self.entries@.len() as int)
    }
}

proof fn lemma_map_of_prefix<V: View>(a: Seq<(String, V)>, b: Seq<(String, V)>, n: int)
    requires
        n <= a.len(),
        n <= b.len(),
        forall|i: int| 0 <= i < n ==> a[i] == b[i],
    ensures
        map_of(a, n) == map_of(b, n),
    decreases n,
{
    if n > 0 {
        lemma_map_of_prefix(a, b, n - 1);
    }
}

proof fn lemma_map_of_update<V: View>(es: Seq<(String, V)>, i: int, e: (String, V), n: int)
    requires
        0 <= i < n <= es.len(),
        es[i].0@ == e.0@,
        forall|j: int| i < j < n ==> (#[trigger] es[j]).0@ != e.0@,
    ensures
        map_of(es.update(i, e), n) == map_of(es, n).insert(e.0@, e.1@),
    decreases n,
{
    let us = es.update(i, e);
    if n - 1 == i {
        lemma_map_of_prefix(us, es, i);
        assert(map_of(us, n) =~= map_of(es, n).insert(e.0@, e.1@));
    } else {
        lemma_map_of_update(es, i, e, n - 1);
        assert(us[n - 1] == es[n - 1]);
        assert(es[n - 1].0@ != e.0@);
        assert(map_of(us, n) =~= map_of(es, n).insert(e.0@, e.1@));
    }
}

impl<V: View> StrMap<V> {
    /// The empty map.
    pub fn new() -> (r: StrMap<V>)
        ensures
            r@ == Map::<Seq<char>, V::V>::empty(),
    {
        StrMap { entries: Vec::new() }
    }

    /// Sets the value of a key.
    pub fn insert(&mut self, k: String, v: V)
        ensures
            final(self)@ == old(self)@.insert(k@, v@),
    {
        let n: usize = self.entries.len();
        let mut i: usize = n;
        while i > 0
            invariant
                i <= n,
                n == self.entries@.len(),
                self.entries@ == old(self).entries@,
                forall|j: int| i <= j < n ==> (#[trigger] self.entries@[j]).0@ != k@,
            decreases i,
        {
            if same(&self.entries[i - 1].0, &k) {
                proof {
                    lemma_map_of_update(self.entries@, i - 1, (k, v), n as int);
                }
                self.entries.set(i - 1, (k, v));
                return;
            }
            i = i - 1;
        }
        self.entries.push((k, v));
        proof {
            lemma_map_of_prefix(
                old(self).entries@,
                self.entries@,
                old(self).entries@.len() as int,
            );
        }
    }

    /// The value of a key, if it has one.
    pub fn get(&self, k: &str) -> (r: Option<&V>)
        ensures
            match r {
                Some(v) => self@.dom().contains(k@) && self@[k@] == v@,
                None => !self@.dom().contains(k@),
            },
    {
        let mut i: usize = self.entries.len();
        while i > 0
            invariant
                i <= self.entries.len(),
                self@.dom().contains(k@) == map_of(self.entries@, i as int).dom().contains(k@),
                self@[k@] == map_of(self.entries@, i as int)[k@],
            decreases i,
        {
            i = i - 1;
            if same(&self.entries[i].0, k) {
                return Some(&self.entries[i].1);
            }
        }
        None
    }

    /// Whether a key has a value.
    pub fn has(&self, k: &str) -> (r: bool)
        ensures
            r == self@.dom().contains(k@),
    {
        self.get(k).is_some()
    }
}

} // verus!
