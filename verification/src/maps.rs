//! Executable association tables, viewed as sequences of key/value pairs.
//!
//! `BMap` keys by byte strings (client identifiers, topics, filter paths,
//! share-group names); `IdMap` keys by 16-bit packet identifiers. Both view
//! as `Seq` of pairs, so all contracts go through the functions of
//! [`crate::assoc`].

use vstd::prelude::*;

use crate::assoc::{
    assoc_contains, assoc_get, assoc_insert, assoc_remove, assoc_wf, lemma_get_by_index,
    lemma_get_none, lemma_insert_absent, lemma_insert_at_first_index, lemma_remove_absent,
    lemma_remove_at_first_index,
};
use crate::bytes_util::bytes_eq;

verus! {

/// A table keyed by byte strings.
pub struct BMap<V> {
    entries: Vec<(Vec<u8>, V)>,
}

impl<V: View> View for BMap<V> {
    type V = Seq<(Seq<u8>, V::V)>;

    closed spec fn view(&self) -> Seq<(Seq<u8>, V::V)> {
        self.entries@.map_values(|e: (Vec<u8>, V)| (e.0@, e.1@))
    }
}

impl<V: View> BMap<V> {
    /// Keys are pairwise distinct.
    pub open spec fn wf(&self) -> bool {
        assoc_wf(self@)
    }

    pub fn new() -> (r: Self)
        ensures
            r@ == Seq::<(Seq<u8>, V::V)>::empty(),
            r.wf(),
    {
        let r = BMap { entries: Vec::new() };
        proof {
            assert(r@ =~= Seq::<(Seq<u8>, V::V)>::empty());
        }
        r
    }

    pub fn len(&self) -> (r: usize)
        ensures
            r == self@.len(),
    {
        self.entries.len()
    }

    /// Index of the first entry with key `k`.
    pub fn find_idx(&self, k: &[u8]) -> (r: Option<usize>)
        ensures
            match r {
                Some(i) => {
                    &&& i < self@.len()
                    &&& self@[i as int].0 == k@
                    &&& forall|j: int| 0 <= j < i ==> self@[j].0 != k@
                    &&& assoc_get(self@, k@) == Some(self@[i as int].1)
                },
                None => {
                    &&& !assoc_contains(self@, k@)
                    &&& assoc_get(self@, k@) is None
                },
            },
    {
        let mut i: usize = 0;
        while i < self.entries.len()
            invariant
                0 <= i <= self.entries.len(),
                self@.len() == self.entries@.len(),
                forall|j: int| 0 <= j < i ==> self@[j].0 != k@,
                forall|j: int| 0 <= j < self@.len() ==> self@[j].0 == self.entries@[j].0@,
            decreases self.entries.len() - i,
        {
            if bytes_eq(self.entries[i].0.as_slice(), k) {
                proof {
                    lemma_get_by_index(self@, k@, i as int);
                }
                return Some(i);
            }
            i += 1;
        }
        proof {
            assert(forall|j: int| 0 <= j < self@.len() ==> self@[j].0 != k@);
            lemma_get_none(self@, k@);
        }
        None
    }

    pub fn contains_key(&self, k: &[u8]) -> (r: bool)
        ensures
            r == assoc_contains(self@, k@),
    {
        let r = self.find_idx(k);
        proof {
            if r is Some {
                assert(assoc_contains(self@, k@));
            }
        }
        r.is_some()
    }

    pub fn get(&self, k: &[u8]) -> (r: Option<&V>)
        ensures
            match r {
                Some(v) => assoc_get(self@, k@) == Some(v@),
                None => assoc_get(self@, k@) is None,
            },
    {
        match self.find_idx(k) {
            Some(i) => Some(&self.entries[i].1),
            None => None,
        }
    }

    /// Insert or replace; returns the previous value, if any.
    pub fn insert(&mut self, k: Vec<u8>, v: V) -> (prev: Option<V>)
        ensures
            final(self)@ == assoc_insert(old(self)@, k@, v@),
            match prev {
                Some(p) => assoc_get(old(self)@, k@) == Some(p@),
                None => assoc_get(old(self)@, k@) is None,
            },
    {
        let ghost old_view = self@;
        match self.find_idx(k.as_slice()) {
            Some(i) => {
                let prev = self.entries.remove(i);
                self.entries.insert(i, (k, v));
                proof {
                    lemma_insert_at_first_index(old_view, k@, v@, i as int);
                    assert(self@ =~= old_view.update(i as int, (k@, v@)));
                }
                Some(prev.1)
            },
            None => {
                self.entries.push((k, v));
                proof {
                    assert(forall|j: int| 0 <= j < old_view.len() ==> old_view[j].0 != k@);
                    lemma_insert_absent(old_view, k@, v@);
                    assert(self@ =~= old_view.push((k@, v@)));
                }
                None
            },
        }
    }

    /// Remove the entry with key `k`, if any.
    pub fn remove(&mut self, k: &[u8]) -> (prev: Option<V>)
        ensures
            final(self)@ == assoc_remove(old(self)@, k@),
            match prev {
                Some(p) => assoc_get(old(self)@, k@) == Some(p@),
                None => assoc_get(old(self)@, k@) is None,
            },
    {
        let ghost old_view = self@;
        match self.find_idx(k) {
            Some(i) => {
                let prev = self.entries.remove(i);
                proof {
                    lemma_remove_at_first_index(old_view, k@, i as int);
                    assert(self@ =~= old_view.remove(i as int));
                }
                Some(prev.1)
            },
            None => {
                proof {
                    lemma_remove_absent(old_view, k@);
                }
                None
            },
        }
    }

    pub fn key_at(&self, i: usize) -> (r: &Vec<u8>)
        requires
            i < self@.len(),
        ensures
            r@ == self@[i as int].0,
    {
        &self.entries[i].0
    }

    pub fn value_at(&self, i: usize) -> (r: &V)
        requires
            i < self@.len(),
        ensures
            r@ == self@[i as int].1,
    {
        &self.entries[i].1
    }

    /// Take the entry at index `i` out of the table.
    pub fn take_at(&mut self, i: usize) -> (r: (Vec<u8>, V))
        requires
            i < old(self)@.len(),
        ensures
            r.0@ == old(self)@[i as int].0,
            r.1@ == old(self)@[i as int].1,
            final(self)@ == old(self)@.remove(i as int),
    {
        let r = self.entries.remove(i);
        proof {
            assert(self@ =~= old(self)@.remove(i as int));
        }
        r
    }

    /// Put an entry back at index `i`.
    pub fn put_at(&mut self, i: usize, k: Vec<u8>, v: V)
        requires
            i <= old(self)@.len(),
        ensures
            final(self)@ == old(self)@.insert(i as int, (k@, v@)),
    {
        self.entries.insert(i, (k, v));
        proof {
            assert(self@ =~= old(self)@.insert(i as int, (k@, v@)));
        }
    }
}

/// A table keyed by 16-bit packet identifiers.
pub struct IdMap<V> {
    entries: Vec<(u16, V)>,
}

impl<V: View> View for IdMap<V> {
    type V = Seq<(u16, V::V)>;

    closed spec fn view(&self) -> Seq<(u16, V::V)> {
        self.entries@.map_values(|e: (u16, V)| (e.0, e.1@))
    }
}

impl<V: View> IdMap<V> {
    pub open spec fn wf(&self) -> bool {
        assoc_wf(self@)
    }

    pub fn new() -> (r: Self)
        ensures
            r@ == Seq::<(u16, V::V)>::empty(),
            r.wf(),
    {
        let r = IdMap { entries: Vec::new() };
        proof {
            assert(r@ =~= Seq::<(u16, V::V)>::empty());
        }
        r
    }

    pub fn len(&self) -> (r: usize)
        ensures
            r == self@.len(),
    {
        self.entries.len()
    }

    fn find_idx(&self, k: u16) -> (r: Option<usize>)
        ensures
            match r {
                Some(i) => {
                    &&& i < self@.len()
                    &&& self@[i as int].0 == k
                    &&& forall|j: int| 0 <= j < i ==> self@[j].0 != k
                    &&& assoc_get(self@, k) == Some(self@[i as int].1)
                },
                None => {
                    &&& !assoc_contains(self@, k)
                    &&& assoc_get(self@, k) is None
                },
            },
    {
        let mut i: usize = 0;
        while i < self.entries.len()
            invariant
                0 <= i <= self.entries.len(),
                self@.len() == self.entries@.len(),
                forall|j: int| 0 <= j < i ==> self@[j].0 != k,
                forall|j: int| 0 <= j < self@.len() ==> self@[j].0 == self.entries@[j].0,
            decreases self.entries.len() - i,
        {
            if self.entries[i].0 == k {
                proof {
                    lemma_get_by_index(self@, k, i as int);
                }
                return Some(i);
            }
            i += 1;
        }
        proof {
            assert(forall|j: int| 0 <= j < self@.len() ==> self@[j].0 != k);
            lemma_get_none(self@, k);
        }
        None
    }

    pub fn contains_key(&self, k: u16) -> (r: bool)
        ensures
            r == assoc_contains(self@, k),
    {
        let r = self.find_idx(k);
        proof {
            if r is Some {
                assert(assoc_contains(self@, k));
            }
        }
        r.is_some()
    }

    pub fn get(&self, k: u16) -> (r: Option<&V>)
        ensures
            match r {
                Some(v) => assoc_get(self@, k) == Some(v@),
                None => assoc_get(self@, k) is None,
            },
    {
        match self.find_idx(k) {
            Some(i) => Some(&self.entries[i].1),
            None => None,
        }
    }

    pub fn insert(&mut self, k: u16, v: V) -> (prev: Option<V>)
        ensures
            final(self)@ == assoc_insert(old(self)@, k, v@),
            match prev {
                Some(p) => assoc_get(old(self)@, k) == Some(p@),
                None => assoc_get(old(self)@, k) is None,
            },
    {
        let ghost old_view = self@;
        match self.find_idx(k) {
            Some(i) => {
                let prev = self.entries.remove(i);
                self.entries.insert(i, (k, v));
                proof {
                    lemma_insert_at_first_index(old_view, k, v@, i as int);
                    assert(self@ =~= old_view.update(i as int, (k, v@)));
                }
                Some(prev.1)
            },
            None => {
                self.entries.push((k, v));
                proof {
                    assert(forall|j: int| 0 <= j < old_view.len() ==> old_view[j].0 != k);
                    lemma_insert_absent(old_view, k, v@);
                    assert(self@ =~= old_view.push((k, v@)));
                }
                None
            },
        }
    }

    pub fn remove(&mut self, k: u16) -> (prev: Option<V>)
        ensures
            final(self)@ == assoc_remove(old(self)@, k),
            match prev {
                Some(p) => assoc_get(old(self)@, k) == Some(p@),
                None => assoc_get(old(self)@, k) is None,
            },
    {
        let ghost old_view = self@;
        match self.find_idx(k) {
            Some(i) => {
                let prev = self.entries.remove(i);
                proof {
                    lemma_remove_at_first_index(old_view, k, i as int);
                    assert(self@ =~= old_view.remove(i as int));
                }
                Some(prev.1)
            },
            None => {
                proof {
                    lemma_remove_absent(old_view, k);
                }
                None
            },
        }
    }
}

} // verus!
