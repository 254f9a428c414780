//! A map from labels to values, kept as a list of entries.
use vstd::prelude::*;

use crate::text;
use crate::text::texts;

verus! {

/// A map whose keys are labels. No label occurs twice.
pub struct LabelMap<V> {
    entries: Vec<(String, V)>,
}

impl<V: View> View for LabelMap<V> {
    type V = Map<Seq<char>, V::V>;

    closed spec fn view(&self) -> Map<Seq<char>, V::V> {
        Map::new(|k: Seq<char>| self.has(k), |k: Seq<char>| self.entries@[self.place(k)].1@)
    }
}

impl<V: View> LabelMap<V> {
    spec fn has(self, k: Seq<char>) -> bool {
        exists|i: int| 0 <= i < self.entries@.len() && #[trigger] self.entries@[i].0@ == k
    }

    spec fn place(self, k: Seq<char>) -> int {
        choose|i: int| 0 <= i < self.entries@.len() && #[trigger] self.entries@[i].0@ == k
    }

    /// Each label has one entry.
    pub closed spec fn wf(self) -> bool {
        forall|i: int, j: int|
            0 <= i < j < self.entries@.len() ==> #[trigger] self.entries@[i].0@
                != #[trigger] self.entries@[j].0@
    }

    /// An empty map.
    pub fn new() -> (r: Self)
        ensures
            r.wf(),
            r@ == Map::<Seq<char>, V::V>::empty(),
    {
        let r = LabelMap { entries: Vec::new() };
        assert(r@ =~= Map::<Seq<char>, V::V>::empty());
        r
    }

    /// The position of the entry for `key`, or the number of entries.
    fn find(&self, key: &str) -> (r: usize)
        ensures
            r <= self.entries@.len(),
            r < self.entries@.len() ==> self.entries@[r as int].0@ == key@,
            r == self.entries@.len() ==> !self@.contains_key(key@),
    {
        let mut i: usize = 0;
        while i < self.entries.len()
            invariant
                i <= self.entries@.len(),
                forall|j: int| 0 <= j < i ==> #[trigger] self.entries@[j].0@ != key@,
            decreases self.entries@.len() - i,
        {
            if text::same(self.entries[i].0.as_str(), key) {
                return i;
            }
            i = i + 1;
        }
        i
    }

    proof fn lemma_at(self, i: int)
        requires
            self.wf(),
            0 <= i < self.entries@.len(),
        ensures
            self@.contains_key(self.entries@[i].0@),
            self@[self.entries@[i].0@] == self.entries@[i].1@,
    {
        let k = self.entries@[i].0@;
        assert(self.has(k));
        let p = self.place(k);
        assert(self.entries@[p].0@ == k);
    }

    /// The value of `key`.
    pub fn get(&self, key: &str) -> (r: Option<&V>)
        requires
            self.wf(),
        ensures
            match r {
                Some(v) => self@.contains_key(key@) && v@ == self@[key@],
                None => !self@.contains_key(key@),
            },
    {
        let i: usize = self.find(key);
        if i < self.entries.len() {
            proof {
                self.lemma_at(i as int);
            }
            Some(&self.entries[i].1)
        } else {
            None
        }
    }

    /// Takes the entry of `key` out of the map.
    pub fn remove(&mut self, key: &str) -> (r: Option<V>)
        requires
            old(self).wf(),
        ensures
            final(self).wf(),
            final(self)@ == old(self)@.remove(key@),
            match r {
                Some(v) => old(self)@.contains_key(key@) && v@ == old(self)@[key@],
                None => !old(self)@.contains_key(key@),
            },
    {
        let ghost before = *self;
        let i: usize = self.find(key);
        if i < self.entries.len() {
            proof {
                self.lemma_at(i as int);
            }
            let (_, v) = self.entries.remove(i);
            proof {
                assert forall|k: Seq<char>| self@.contains_key(k) implies before@.remove(
                    key@,
                ).contains_key(k) && self@[k] == before@.remove(key@)[k] by {
                    let p = self.place(k);
                    let q = if p < i {
                        p
                    } else {
                        p + 1
                    };
                    assert(before.entries@[q] == self.entries@[p]);
                    before.lemma_at(q);
                }
                assert forall|k: Seq<char>| before@.remove(key@).contains_key(k) implies self@.contains_key(
                    k,
                ) by {
                    let q = before.place(k);
                    let p = if q < i {
                        q
                    } else {
                        q - 1
                    };
                    assert(before.entries@[q] == self.entries@[p]);
                }
                assert(self@ =~= before@.remove(key@));
            }
            Some(v)
        } else {
            assert(self@ =~= before@.remove(key@));
            None
        }
    }

    /// Sets the value of `key`.
    pub fn insert(&mut self, key: String, value: V)
        requires
            old(self).wf(),
        ensures
            final(self).wf(),
            final(self)@ == old(self)@.insert(key@, value@),
    {
        let ghost start = *self;
        let _ = self.remove(key.as_str());
        let ghost before = *self;
        assert forall|j: int| 0 <= j < before.entries@.len() implies #[trigger] before.entries@[j].0@
            != key@ by {
            before.lemma_at(j);
        }
        self.entries.push((key, value));
        proof {
            let n = before.entries@.len() as int;
            let target = start@.insert(key@, value@);
            assert forall|k: Seq<char>| #[trigger] self@.dom().contains(k) implies target.dom().contains(
                k,
            ) && self@[k] == target[k] by {
                let p = self.place(k);
                self.lemma_at(p);
                if p < n {
                    assert(self.entries@[p] == before.entries@[p]);
                    before.lemma_at(p);
                }
            }
            assert forall|k: Seq<char>| #[trigger] target.dom().contains(k) implies self@.dom().contains(
                k,
            ) by {
                if k == key@ {
                    assert(self.entries@[n].0@ == k);
                } else {
                    assert(before@.dom().contains(k));
                    let q = before.place(k);
                    assert(self.entries@[q] == before.entries@[q]);
                }
            }
            assert(self@ =~= target);
        }
    }

    /// Every label that has an entry, once each.
    pub fn keys(&self) -> (r: Vec<String>)
        requires
            self.wf(),
        ensures
            texts(r@).no_duplicates(),
            forall|k: Seq<char>| texts(r@).contains(k) <==> self@.contains_key(k),
    {
        let mut r: Vec<String> = Vec::new();
        let mut i: usize = 0;
        while i < self.entries.len()
            invariant
                i <= self.entries@.len(),
                r@.len() == i,
                forall|j: int| 0 <= j < i ==> #[trigger] r@[j]@ == self.entries@[j].0@,
            decreases self.entries@.len() - i,
        {
            r.push(self.entries[i].0.clone());
            i = i + 1;
        }
        proof {
            assert forall|k: Seq<char>| texts(r@).contains(k) implies self@.contains_key(k) by {
                let j = choose|j: int| 0 <= j < texts(r@).len() && texts(r@)[j] == k;
                assert(r@[j]@ == k);
                self.lemma_at(j);
            }
            assert forall|k: Seq<char>| self@.contains_key(k) implies texts(r@).contains(k) by {
                let p = self.place(k);
                assert(r@[p]@ == k);
                assert(texts(r@)[p] == k);
            }
        }
        r
    }
}

} // verus!
