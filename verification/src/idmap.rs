//! An insertion-ordered map from participant ids to values.
//!
//! Backed by a vector of pairs whose keys are pairwise distinct, so that it
//! can be enumerated deterministically (in first-insertion order) and its
//! whole contents drained when a round completes.  Its mathematical value is
//! a [`Map`] from id character sequences to values.

use vstd::prelude::*;
use vstd::seq_lib::*;

verus! {

pub struct IdMap<V> {
    entries: Vec<(String, V)>,
}

impl<V> View for IdMap<V> {
    type V = Map<Seq<char>, V>;

    closed spec fn view(&self) -> Map<Seq<char>, V> {
        Map::new(
            |k: Seq<char>| self.key_seq().contains(k),
            |k: Seq<char>| self.entries@[self.index_of(k)].1,
        )
    }
}

impl<V> IdMap<V> {
    /// The keys, in storage order.
    pub closed spec fn key_seq(self) -> Seq<Seq<char>> {
        self.entries@.map_values(|p: (String, V)| p.0@)
    }

    /// Keys are pairwise distinct.
    pub closed spec fn wf(self) -> bool {
        self.key_seq().no_duplicates()
    }

    /// The storage index holding key `k`.
    spec fn index_of(self, k: Seq<char>) -> int {
        choose|i: int| 0 <= i < self.entries@.len() && self.entries@[i].0@ == k
    }

    proof fn lemma_index_of(self, i: int)
        requires
            self.wf(),
            0 <= i < self.entries@.len(),
        ensures
            self.index_of(self.entries@[i].0@) == i,
    {
        let k = self.entries@[i].0@;
        assert(self.key_seq()[i] == k);
        assert(self.key_seq().contains(k));
        let j = self.index_of(k);
        assert(0 <= j < self.entries@.len() && self.entries@[j].0@ == k);
        assert(self.key_seq()[j] == k);
    }

    /// Each stored entry is visible in the map at its own key.
    proof fn lemma_entry_in_view(self, i: int)
        requires
            self.wf(),
            0 <= i < self.entries@.len(),
        ensures
            self@.contains_key(self.entries@[i].0@),
            self@[self.entries@[i].0@] == self.entries@[i].1,
    {
        self.lemma_index_of(i);
        assert(self.key_seq()[i] == self.entries@[i].0@);
        assert(self.key_seq().contains(self.entries@[i].0@));
    }

    /// The map's domain is finite and has one key per stored entry.
    proof fn lemma_dom(self)
        requires
            self.wf(),
        ensures
            self@.dom().finite(),
            self@.dom().len() == self.entries@.len(),
    {
        assert(self@.dom() =~= self.key_seq().to_set());
        self.key_seq().unique_seq_to_set();
    }

    pub fn new() -> (r: IdMap<V>)
        ensures
            r.wf(),
            r@ == Map::<Seq<char>, V>::empty(),
            r@.dom().finite(),
    {
        let r = IdMap::<V> { entries: Vec::new() };
        proof {
            assert(r@ =~= Map::<Seq<char>, V>::empty());
            r.lemma_dom();
        }
        r
    }

    /// The number of entries.
    pub fn len(&self) -> (n: usize)
        requires
            self.wf(),
        ensures
            n == self@.dom().len(),
    {
        proof {
            self.lemma_dom();
        }
        self.entries.len()
    }

    /// The value stored under `k`, if any.
    pub fn get(&self, k: &String) -> (r: Option<&V>)
        requires
            self.wf(),
        ensures
            match r {
                Some(v) => self@.contains_key(k@) && *v == self@[k@],
                None => !self@.contains_key(k@),
            },
    {
        let n = self.entries.len();
        let mut i: usize = 0;
        while i < n
            invariant
                self.wf(),
                i <= n,
                n == self.entries@.len(),
                forall|j: int| 0 <= j < i ==> self.entries@[j].0@ != k@,
            decreases n - i,
        {
            let pair: &(String, V) = &self.entries[i];
            if pair.0 == *k {
                proof {
                    self.lemma_entry_in_view(i as int);
                }
                return Some(&self.entries[i].1);
            }
            i = i + 1;
        }
        proof {
            assert(forall|j: int| 0 <= j < self.key_seq().len()
                ==> #[trigger] self.key_seq()[j] != k@);
            assert(!self.key_seq().contains(k@));
        }
        None
    }

    /// Inserts `v` under `k`, overwriting any value already there.
    pub fn insert(&mut self, k: String, v: V)
        requires
            old(self).wf(),
        ensures
            final(self).wf(),
            final(self)@ == old(self)@.insert(k@, v),
            final(self)@.dom().finite(),
            final(self)@.dom().len() == old(self)@.dom().len() + (if old(self)@.contains_key(k@) {
                0int
            } else {
                1int
            }),
    {
        proof {
            old(self).lemma_dom();
        }
        let n = self.entries.len();
        let mut i: usize = 0;
        while i < n
            invariant
                self == old(self),
                self.wf(),
                i <= n,
                n == self.entries@.len(),
                forall|j: int| 0 <= j < i ==> self.entries@[j].0@ != k@,
            decreases n - i,
        {
            let pair: &(String, V) = &self.entries[i];
            if pair.0 == k {
                proof {
                    old(self).lemma_entry_in_view(i as int);
                }
                self.entries.set(i, (k, v));
                proof {
                    self.lemma_view_after_update(*old(self), i as int, v);
                    self.lemma_dom();
                    old(self).lemma_dom();
                }
                return;
            }
            i = i + 1;
        }
        proof {
            assert(forall|j: int| 0 <= j < old(self).key_seq().len()
                ==> #[trigger] old(self).key_seq()[j] != k@);
            assert(!old(self).key_seq().contains(k@));
        }
        self.entries.push((k, v));
        proof {
            assert(self.key_seq() =~= old(self).key_seq().push(self.entries@.last().0@));
            self.lemma_view_after_push(*old(self), v);
            self.lemma_dom();
            old(self).lemma_dom();
        }
    }

    /// After overwriting index `i` (whose key was already `k`), the map is
    /// the old map with `k` re-bound.
    proof fn lemma_view_after_update(self, prev: IdMap<V>, i: int, v: V)
        requires
            prev.wf(),
            0 <= i < prev.entries@.len(),
            self.entries@ == prev.entries@.update(i, (self.entries@[i].0, v)),
            self.entries@[i].0@ == prev.entries@[i].0@,
        ensures
            self.wf(),
            self@ == prev@.insert(prev.entries@[i].0@, v),
    {
        let k = prev.entries@[i].0@;
        assert(self.key_seq() =~= prev.key_seq());
        assert(self.wf());
        assert forall|k2: Seq<char>| true implies #[trigger] self@.contains_key(k2)
            == prev@.insert(k, v).contains_key(k2) by {
            prev.lemma_entry_in_view(i);
        }
        assert forall|k2: Seq<char>| self@.contains_key(k2) implies self@[k2] == prev@.insert(
            k, v)[k2] by {
            let j = choose|j: int| 0 <= j < self.key_seq().len() && self.key_seq()[j] == k2;
            assert(self.key_seq()[j] == self.entries@[j].0@);
            self.lemma_index_of(j);
            self.lemma_entry_in_view(j);
            if k2 == k {
                assert(j == i) by {
                    assert(prev.key_seq()[j] == k2);
                    prev.lemma_index_of(j);
                    prev.lemma_index_of(i);
                }
            } else {
                assert(j != i);
                prev.lemma_entry_in_view(j);
            }
        }
        assert(self@ =~= prev@.insert(k, v));
    }

    /// After pushing a fresh key `k`, the map is the old map with `k` bound.
    proof fn lemma_view_after_push(self, prev: IdMap<V>, v: V)
        requires
            prev.wf(),
            !prev.key_seq().contains(self.entries@.last().0@),
            self.entries@ == prev.entries@.push((self.entries@.last().0, v)),
        ensures
            self.wf(),
            self@ == prev@.insert(self.entries@.last().0@, v),
    {
        let k = self.entries@.last().0@;
        let n = prev.entries@.len();
        assert(self.key_seq() =~= prev.key_seq().push(k));
        assert(self.wf()) by {
            assert forall|a: int, b: int|
                0 <= a < b < self.key_seq().len() implies self.key_seq()[a]
                != self.key_seq()[b] by {
                if b == n {
                    assert(prev.key_seq()[a] == self.key_seq()[a]);
                    assert(prev.key_seq().contains(self.key_seq()[a]));
                }
            }
        }
        assert forall|k2: Seq<char>| true implies #[trigger] self@.contains_key(k2)
            == prev@.insert(k, v).contains_key(k2) by {
            if self.key_seq().contains(k2) {
                let j = choose|j: int| 0 <= j < self.key_seq().len() && self.key_seq()[j] == k2;
                if j < n {
                    assert(prev.key_seq()[j] == k2);
                    assert(prev.key_seq().contains(k2));
                } else {
                    assert(k2 == k);
                }
            }
            if prev.key_seq().contains(k2) {
                let j = choose|j: int| 0 <= j < prev.key_seq().len() && prev.key_seq()[j] == k2;
                assert(self.key_seq()[j] == k2);
                assert(self.key_seq().contains(k2));
            }
            if k2 == k {
                assert(self.key_seq()[n as int] == k);
                assert(self.key_seq().contains(k));
            }
        }
        assert forall|k2: Seq<char>| self@.contains_key(k2) implies self@[k2] == prev@.insert(
            k, v)[k2] by {
            let j = choose|j: int| 0 <= j < self.key_seq().len() && self.key_seq()[j] == k2;
            assert(self.key_seq()[j] == self.entries@[j].0@);
            self.lemma_index_of(j);
            self.lemma_entry_in_view(j);
            if k2 == k {
                assert(j == n) by {
                    if j < n {
                        assert(prev.key_seq()[j] == k2);
                        assert(prev.key_seq().contains(k2));
                    }
                }
            } else {
                assert(j != n);
                assert(prev.key_seq()[j] == k2);
                prev.lemma_entry_in_view(j);
            }
        }
        assert(self@ =~= prev@.insert(k, v));
    }

    /// The stored ids, cloned, in storage order.
    pub fn keys(&self) -> (r: Vec<String>)
        requires
            self.wf(),
        ensures
            r@.len() == self@.dom().len(),
            forall|i: int, j: int| 0 <= i < j < r@.len() ==> r@[i]@ != r@[j]@,
            forall|i: int| 0 <= i < r@.len() ==> self@.contains_key(#[trigger] r@[i]@),
            forall|k: Seq<char>| self@.contains_key(k) ==> exists|i: int|
                0 <= i < r@.len() && #[trigger] r@[i]@ == k,
    {
        proof {
            self.lemma_dom();
        }
        let n = self.entries.len();
        let mut r: Vec<String> = Vec::new();
        let mut i: usize = 0;
        while i < n
            invariant
                self.wf(),
                i <= n,
                n == self.entries@.len(),
                r@.len() == i,
                forall|j: int| 0 <= j < i ==> r@[j]@ == self.key_seq()[j],
            decreases n - i,
        {
            let pair: &(String, V) = &self.entries[i];
            r.push(pair.0.clone());
            i = i + 1;
        }
        proof {
            assert forall|a: int, b: int| 0 <= a < b < r@.len() implies r@[a]@ != r@[b]@ by {
                assert(r@[a]@ == self.key_seq()[a]);
                assert(r@[b]@ == self.key_seq()[b]);
            }
            assert forall|i2: int| 0 <= i2 < r@.len() implies self@.contains_key(
                #[trigger] r@[i2]@) by {
                assert(r@[i2]@ == self.key_seq()[i2]);
                assert(self.key_seq()[i2] == self.entries@[i2].0@);
                self.lemma_entry_in_view(i2);
            }
            assert forall|k: Seq<char>| self@.contains_key(k) implies exists|i2: int|
                0 <= i2 < r@.len() && #[trigger] r@[i2]@ == k by {
                assert(self.key_seq().contains(k));
                let j = self.index_of(k);
                assert(0 <= j < self.entries@.len() && self.entries@[j].0@ == k);
                assert(self.key_seq()[j] == self.entries@[j].0@);
                assert(r@[j]@ == self.key_seq()[j]);
                assert(r@[j]@ == k);
            }
        }
        r
    }

    /// Removes and returns every entry, leaving the map empty.  The result
    /// enumerates the old map exactly once per key, in storage order.
    pub fn take_entries(&mut self) -> (r: Vec<(String, V)>)
        requires
            old(self).wf(),
        ensures
            final(self).wf(),
            final(self)@ == Map::<Seq<char>, V>::empty(),
            r@.len() == old(self)@.dom().len(),
            forall|i: int, j: int| 0 <= i < j < r@.len() ==> r@[i].0@ != r@[j].0@,
            forall|i: int| 0 <= i < r@.len() ==> old(self)@.contains_key(#[trigger] r@[i].0@)
                && old(self)@[r@[i].0@] == r@[i].1,
            forall|k: Seq<char>| old(self)@.contains_key(k) ==> exists|i: int|
                0 <= i < r@.len() && #[trigger] r@[i].0@ == k,
    {
        proof {
            old(self).lemma_dom();
        }
        let mut r: Vec<(String, V)> = Vec::new();
        core::mem::swap(&mut r, &mut self.entries);
        proof {
            assert(self.key_seq() =~= Seq::<Seq<char>>::empty());
            assert(self@ =~= Map::<Seq<char>, V>::empty());
            assert forall|i: int, j: int| 0 <= i < j < r@.len() implies r@[i].0@
                != r@[j].0@ by {
                assert(old(self).key_seq()[i] == r@[i].0@);
                assert(old(self).key_seq()[j] == r@[j].0@);
            }
            assert forall|i: int| 0 <= i < r@.len() implies old(self)@.contains_key(
                #[trigger] r@[i].0@) && old(self)@[r@[i].0@] == r@[i].1 by {
                old(self).lemma_entry_in_view(i);
            }
            assert forall|k: Seq<char>| old(self)@.contains_key(k) implies exists|i: int|
                0 <= i < r@.len() && #[trigger] r@[i].0@ == k by {
                assert(old(self).key_seq().contains(k));
                let j = old(self).index_of(k);
                assert(0 <= j < r@.len() && r@[j].0@ == k);
            }
        }
        r
    }
}

} // verus!
