//! Counter backed by a [`BTreeMap`].
//!
//! Its contracts hold for every key type whose ordering obeys the key model
//! of [`crate::key`], as primitive integers do.

use vstd::prelude::*;
use vstd::multiset::Multiset;
use std::collections::BTreeMap;
use crate::key::{ordered_key, key_lt};
use vstd::std_specs::iter::IteratorSpec;
use crate::count::model::{
    copies, lemma_copies, map_multiset, lemma_map_multiset, lemma_map_multiset_dom,
    entries_multiset, entries_total, distinct_keys, has_key, lemma_entries_len,
    lemma_entries_of_map,
};

verus! {

broadcast use vstd::multiset::group_multiset_axioms;

/// Calls `BTreeMap::remove_entry`: removes `key` and hands back the stored
/// key with its value, when the key was present.
#[verifier::external_body]
fn btree_map_remove_entry<K: Ord, V>(m: &mut BTreeMap<K, V>, key: &K) -> (res: Option<(K, V)>)
    ensures
        ordered_key::<K>() ==> match res {
            Some((k, v)) => old(m)@.contains_key(*key) && k == *key && v == old(m)@[*key]
                && final(m)@ == old(m)@.remove(*key),
            None => !old(m)@.contains_key(*key) && final(m)@ == old(m)@,
        },
{
    m.remove_entry(key)
}

/// Counter backed by a B-tree map from element to count.
#[derive(Clone, PartialEq, Eq, PartialOrd, Ord, Hash, Debug)]
pub struct BTreeCounter<T: Ord>(BTreeMap<T, usize>);

impl<T: Ord> View for BTreeCounter<T> {
    type V = Multiset<T>;

    /// The counter as a multiset of its elements.
    closed spec fn view(&self) -> Multiset<T> {
        map_multiset(self.0@)
    }
}

impl<T: Ord> BTreeCounter<T> {
    /// Every stored count is positive.
    pub closed spec fn wf(&self) -> bool {
        forall|v: T| self.0@.contains_key(v) ==> #[trigger] self.0@[v] > 0
    }

    /// Counts of the view.
    proof fn lemma_view(&self)
        requires
            self.wf(),
        ensures
            forall|v: T| #[trigger] self@.count(v) == if self.0@.contains_key(v) { self.0@[v] as nat } else { 0 },
            self@.dom() == self.0@.dom(),
    {
        lemma_map_multiset(self.0@);
        lemma_map_multiset_dom(self.0@);
    }

    /// An empty counter.
    pub fn new() -> (res: Self)
        ensures
            res.wf(),
            res@ == Multiset::<T>::empty(),
    {
        let res = BTreeCounter(BTreeMap::new());
        proof {
            res.lemma_view();
            assert(res@ =~= Multiset::<T>::empty());
        }
        res
    }

    /// Whether the counter holds no element.
    pub fn is_empty(&self) -> (res: bool)
        requires
            ordered_key::<T>(),
            self.wf(),
        ensures
            res == (self@.len() == 0),
    {
        proof {
            self.lemma_view();
            if self.0@.dom().len() > 0 {
                let v = self.0@.dom().choose();
                assert(self@.count(v) > 0);
            } else {
                assert(self.0@.dom() =~= Set::empty());
                assert(self@ =~= Multiset::empty());
            }
        }
        self.0.is_empty()
    }

    /// Number of distinct elements.
    pub fn len(&self) -> (res: usize)
        requires
            ordered_key::<T>(),
            self.wf(),
        ensures
            res == self@.dom().len(),
    {
        proof {
            self.lemma_view();
        }
        self.0.len()
    }

    /// Number of elements, repetitions included.
    pub fn len_count(&self) -> (res: usize)
        requires
            ordered_key::<T>(),
            self.wf(),
            self@.len() <= usize::MAX,
        ensures
            res == self@.len(),
    {
        let mut total: usize = 0;
        let ghost m = self.0@;
        let ghost raw = vstd::std_specs::btree::spec_btree_map_iter(&self.0).remaining();
        let ghost s = pairs_of(raw);
        let pairs = self.0.iter();
        proof {
            assert(pairs.remaining().no_duplicates());
            assert(distinct_keys(s)) by {
                assert forall|a: int, b: int| 0 <= a < b < s.len() implies s[a].0 != s[b].0 by {
                    assert(m.contains_key(*raw[a].0) && m[*raw[a].0] == *raw[a].1);
                    assert(m.contains_key(*raw[b].0) && m[*raw[b].0] == *raw[b].1);
                    if s[a].0 == s[b].0 {
                        assert(raw[a] == raw[b]);
                    }
                }
            }
            assert forall|v: T| m.contains_key(v) implies #[trigger] has_key(s, v) by {
                assert(raw.contains((&v, &m[v])));
                let i = choose|i: int| 0 <= i < raw.len() && raw[i] == (&v, &m[v]);
                assert(s[i].0 == v);
            }
            assert forall|i: int| 0 <= i < s.len() implies m.contains_key(#[trigger] s[i].0) && m[s[i].0] == s[i].1 by {
                assert(m.contains_key(*raw[i].0) && m[*raw[i].0] == *raw[i].1);
            }
            lemma_entries_of_map(s, m);
            lemma_entries_len(s);
        }
        for (_, count) in it: pairs
            invariant
                ordered_key::<T>(),
                m == self.0@,
                s == pairs_of(it.seq()),
                entries_total(s) == self@.len(),
                self@.len() <= usize::MAX,
                total == entries_total(s.take(it.index())),
        {
            proof {
                let i = it.index();
                crate::count::model::lemma_total_prefix(s, i + 1);
                crate::count::model::lemma_total_prefix_le(s, i + 1);
            }
            total = total + *count;
        }
        proof {
            assert(s.take(s.len() as int) =~= s);
        }
        total
    }
}

impl<T: Ord> BTreeCounter<T> {
    /// The view after setting the stored count of `v`.
    proof fn lemma_set(&self, old_self: &Self, v: T, c: nat)
        requires
            old_self.wf(),
            self.wf(),
            c <= usize::MAX,
            c > 0 ==> self.0@ == old_self.0@.insert(v, c as usize),
            c == 0 ==> self.0@ == old_self.0@.remove(v),
        ensures
            self@ == old_self@.update(v, c),
    {
        self.lemma_view();
        old_self.lemma_view();
        assert forall|x: T| #[trigger] self@.count(x) == old_self@.update(v, c).count(x) by {
            if x == v {
                vstd::multiset::lemma_update_same(old_self@, v, c);
            } else {
                vstd::multiset::lemma_update_different(old_self@, v, c, x);
            }
        }
        assert(self@ =~= old_self@.update(v, c));
    }

    /// Remove every element.
    pub fn clear(&mut self)
        ensures
            final(self).wf(),
            final(self)@ == Multiset::<T>::empty(),
    {
        self.0.clear();
        proof {
            self.lemma_view();
            assert(self@ =~= Multiset::<T>::empty());
        }
    }

    /// Whether `value` is counted.
    pub fn contains(&self, value: &T) -> (res: bool)
        requires
            ordered_key::<T>(),
            self.wf(),
        ensures
            res == (self@.count(*value) > 0),
    {
        proof {
            self.lemma_view();
        }
        self.0.contains_key(value)
    }

    /// Count of `value`.
    pub fn get(&self, value: &T) -> (res: usize)
        requires
            ordered_key::<T>(),
            self.wf(),
        ensures
            res == self@.count(*value),
    {
        proof {
            self.lemma_view();
        }
        match self.0.get(value) {
            Some(count) => *count,
            None => 0,
        }
    }

    /// Insert one copy of `value`, returning its new count.
    pub fn insert(&mut self, value: T) -> (res: usize)
        requires
            ordered_key::<T>(),
            old(self).wf(),
            old(self)@.count(value) < usize::MAX,
        ensures
            final(self).wf(),
            final(self)@ == old(self)@.insert(value),
            res == final(self)@.count(value),
    {
        let ghost v = value;
        let res = self.insertn(value, 1);
        proof {
            lemma_copies(v, 1);
            assert(copies(v, 1) =~= Multiset::singleton(v)) by {
                assert(copies(v, 0) =~= Multiset::empty());
            }
        }
        res
    }

    /// Insert `count` copies of `value`. Returns the new count of `value`,
    /// or 0 when `count` is 0.
    pub fn insertn(&mut self, value: T, count: usize) -> (res: usize)
        requires
            ordered_key::<T>(),
            old(self).wf(),
            old(self)@.count(value) + count <= usize::MAX,
        ensures
            final(self).wf(),
            final(self)@ == old(self)@.add(copies(value, count as nat)),
            res == if count == 0 { 0 } else { final(self)@.count(value) },
    {
        let ghost v = value;
        proof {
            self.lemma_view();
            lemma_copies(v, count as nat);
        }
        if count == 0 {
            proof {
                assert(self@.add(copies(v, 0)) =~= self@);
            }
            return 0;
        }
        let previous = match self.0.get(&value) {
            Some(c) => *c,
            None => 0,
        };
        let current = previous + count;
        self.0.insert(value, current);
        proof {
            self.lemma_set(old(self), v, current as nat);
            assert forall|x: T| #[trigger] self@.count(x) == old(self)@.add(copies(v, count as nat)).count(x) by {
                if x == v {
                    vstd::multiset::lemma_update_same(old(self)@, v, current as nat);
                } else {
                    vstd::multiset::lemma_update_different(old(self)@, v, current as nat, x);
                }
            }
            assert(self@ =~= old(self)@.add(copies(v, count as nat)));
        }
        current
    }

    /// Set the count of `value` to `count`, deleting it when `count` is 0.
    /// Returns the previous count.
    pub fn insert_to(&mut self, value: T, count: usize) -> (res: usize)
        requires
            ordered_key::<T>(),
            old(self).wf(),
        ensures
            final(self).wf(),
            final(self)@ == old(self)@.update(value, count as nat),
            res == old(self)@.count(value),
    {
        let ghost v = value;
        proof {
            self.lemma_view();
        }
        if count == 0 {
            let removed = self.remove_all(&value);
            proof {
                if old(self)@.count(v) == 0 {
                    self.lemma_view();
                    assert(self.0@ == old(self).0@.remove(v)) by {
                        assert(old(self).0@.remove(v) =~= old(self).0@);
                    }
                    self.lemma_set(old(self), v, 0);
                }
            }
            return match removed {
                Some(c) => c,
                None => 0,
            };
        }
        let previous = self.0.insert(value, count);
        proof {
            self.lemma_set(old(self), v, count as nat);
        }
        match previous {
            Some(c) => c,
            None => 0,
        }
    }

    /// Remove one copy of `value`. Returns the remaining count when the
    /// element was present.
    pub fn remove(&mut self, value: &T) -> (res: Option<usize>)
        requires
            ordered_key::<T>(),
            old(self).wf(),
        ensures
            final(self).wf(),
            old(self)@.count(*value) == 0 ==> res is None && final(self)@ == old(self)@,
            old(self)@.count(*value) > 0 ==> res == Some(final(self)@.count(*value) as usize)
                && final(self)@ == old(self)@.remove(*value),
    {
        let res = self.removen(value, 1);
        proof {
            lemma_copies(*value, 1);
            assert(copies(*value, 1) =~= Multiset::singleton(*value)) by {
                assert(copies(*value, 0) =~= Multiset::empty());
            }
        }
        res
    }

    /// Remove `count` copies of `value`, deleting it when none is left.
    /// Returns the remaining count when the element was present.
    pub fn removen(&mut self, value: &T, count: usize) -> (res: Option<usize>)
        requires
            ordered_key::<T>(),
            old(self).wf(),
        ensures
            final(self).wf(),
            old(self)@.count(*value) == 0 ==> res is None && final(self)@ == old(self)@,
            old(self)@.count(*value) > 0 ==> res == Some(final(self)@.count(*value) as usize)
                && final(self)@ == old(self)@.sub(copies(*value, count as nat)),
    {
        let ghost v = *value;
        proof {
            self.lemma_view();
            lemma_copies(v, count as nat);
        }
        let (key, previous) = match btree_map_remove_entry(&mut self.0, value) {
            Some(entry) => entry,
            None => {
                return None;
            },
        };
        if previous <= count {
            proof {
                self.lemma_set(old(self), v, 0);
                assert forall|x: T| #[trigger] self@.count(x) == old(self)@.sub(copies(v, count as nat)).count(x) by {
                    if x == v {
                        vstd::multiset::lemma_update_same(old(self)@, v, 0);
                    } else {
                        vstd::multiset::lemma_update_different(old(self)@, v, 0, x);
                    }
                }
                assert(self@ =~= old(self)@.sub(copies(v, count as nat)));
            }
            Some(0)
        } else {
            let remaining = previous - count;
            self.0.insert(key, remaining);
            proof {
                assert(self.0@ =~= old(self).0@.insert(v, remaining));
                self.lemma_set(old(self), v, remaining as nat);
                assert forall|x: T| #[trigger] self@.count(x) == old(self)@.sub(copies(v, count as nat)).count(x) by {
                    if x == v {
                        vstd::multiset::lemma_update_same(old(self)@, v, remaining as nat);
                    } else {
                        vstd::multiset::lemma_update_different(old(self)@, v, remaining as nat, x);
                    }
                }
                assert(self@ =~= old(self)@.sub(copies(v, count as nat)));
            }
            Some(remaining)
        }
    }

    /// Delete `value`, returning its count when it was present.
    pub fn remove_all(&mut self, value: &T) -> (res: Option<usize>)
        requires
            ordered_key::<T>(),
            old(self).wf(),
        ensures
            final(self).wf(),
            old(self)@.count(*value) == 0 ==> res is None && final(self)@ == old(self)@,
            old(self)@.count(*value) > 0 ==> res == Some(old(self)@.count(*value) as usize)
                && final(self)@ == old(self)@.update(*value, 0),
    {
        proof {
            self.lemma_view();
        }
        let res = self.0.remove(value);
        proof {
            self.lemma_view();
            if old(self)@.count(*value) > 0 {
                self.lemma_set(old(self), *value, 0);
            } else {
                assert(self.0@ =~= old(self).0@);
            }
        }
        res
    }

    /// The distinct elements, in no particular order.
    pub fn iter(&self) -> (res: Vec<&T>)
        requires
            ordered_key::<T>(),
            self.wf(),
        ensures
            res@.len() == self@.dom().len(),
            forall|i: int| 0 <= i < res@.len() ==> self@.count(*#[trigger] res@[i]) > 0,
            forall|v: T| self@.count(v) > 0 ==> exists|i: int| 0 <= i < res@.len() && *res@[i] == v,
            forall|i: int, j: int| 0 <= i < j < res@.len() ==> key_lt(*res@[i], *res@[j]),
    {
        let pairs = self.iter_with_count();
        let mut res: Vec<&T> = Vec::new();
        let mut i: usize = 0;
        while i < pairs.len()
            invariant
                i <= pairs@.len(),
                res@.len() == i,
                forall|k: int| 0 <= k < i ==> #[trigger] res@[k] == pairs@[k].0,
            decreases pairs@.len() - i,
        {
            res.push(pairs[i].0);
            i = i + 1;
        }
        proof {
            assert forall|k: int| 0 <= k < res@.len() implies self@.count(*#[trigger] res@[k]) > 0 by {
                assert(res@[k] == pairs@[k].0);
                assert(pairs@[k].1 > 0);
            }
            assert forall|a: int, b: int| 0 <= a < b < res@.len() implies key_lt(*res@[a], *res@[b]) by {
                assert(res@[a] == pairs@[a].0 && res@[b] == pairs@[b].0);
            }
            assert forall|v: T| self@.count(v) > 0 implies exists|i: int| 0 <= i < res@.len() && *res@[i] == v by {
                let k = choose|k: int| 0 <= k < pairs@.len() && *pairs@[k].0 == v;
                assert(res@[k] == pairs@[k].0);
            }
        }
        res
    }

    /// The distinct elements with their counts, in no particular order.
    pub fn iter_with_count(&self) -> (res: Vec<(&T, usize)>)
        requires
            ordered_key::<T>(),
            self.wf(),
        ensures
            res@.len() == self@.dom().len(),
            forall|i: int| 0 <= i < res@.len() ==> self@.count(*#[trigger] res@[i].0) == res@[i].1 as nat,
            forall|i: int| 0 <= i < res@.len() ==> #[trigger] res@[i].1 > 0,
            forall|v: T| self@.count(v) > 0 ==> exists|i: int| 0 <= i < res@.len() && *res@[i].0 == v,
            forall|i: int, j: int| 0 <= i < j < res@.len() ==> key_lt(*res@[i].0, *res@[j].0),
    {
        proof {
            self.lemma_view();
        }
        let ghost m = self.0@;
        let ghost raw = vstd::std_specs::btree::spec_btree_map_iter(&self.0).remaining();
        let mut res: Vec<(&T, usize)> = Vec::new();
        let pairs = self.0.iter();
        proof {
            lemma_increasing_keys(pairs.remaining().map_values(|kv: (&T, &usize)| *kv.0));
        }
        for (value, count) in it: pairs
            invariant
                ordered_key::<T>(),
                m == self.0@,
                raw == it.seq(),
                res@.len() == it.index(),
                forall|k: int| 0 <= k < it.index() ==> #[trigger] res@[k] == (raw[k].0, *raw[k].1),
        {
            res.push((value, *count));
        }
        proof {
            assert forall|i: int| 0 <= i < res@.len() implies self@.count(*#[trigger] res@[i].0) == res@[i].1 as nat by {
                assert(m.contains_key(*raw[i].0) && m[*raw[i].0] == *raw[i].1);
            }
            assert forall|i: int| 0 <= i < res@.len() implies #[trigger] res@[i].1 > 0 by {
                assert(m.contains_key(*raw[i].0) && m[*raw[i].0] == *raw[i].1);
            }
            assert forall|i: int, j: int| 0 <= i < j < res@.len() implies key_lt(*res@[i].0, *res@[j].0) by {
                assert(raw.map_values(|kv: (&T, &usize)| *kv.0)[i] == *raw[i].0);
                assert(raw.map_values(|kv: (&T, &usize)| *kv.0)[j] == *raw[j].0);
            }
            assert forall|v: T| self@.count(v) > 0 implies exists|i: int| 0 <= i < res@.len() && *res@[i].0 == v by {
                assert(raw.contains((&v, &m[v])));
                let i = choose|i: int| 0 <= i < raw.len() && raw[i] == (&v, &m[v]);
                assert(*res@[i].0 == v);
            }
        }
        res
    }
}

impl<T: Ord> Default for BTreeCounter<T> {
    /// An empty counter.
    fn default() -> (res: Self)
        ensures
            res.wf(),
            res@ == Multiset::<T>::empty(),
    {
        Self::new()
    }
}

/// The keys a B-tree map yields are in strictly increasing order.
proof fn lemma_increasing_keys<T: Ord>(s: Seq<T>)
    requires
        ordered_key::<T>(),
        vstd::std_specs::btree::increasing_seq(s),
    ensures
        forall|i: int, j: int| 0 <= i < j < s.len() ==> key_lt(s[i], s[j]),
{
    vstd::std_specs::btree::axiom_increasing_seq_meaning(s);
}

/// Entries from borrowed pairs.
spec fn pairs_of<T>(s: Seq<(&T, &usize)>) -> Seq<(T, usize)> {
    s.map_values(|p: (&T, &usize)| (*p.0, *p.1))
}

} // verus!
