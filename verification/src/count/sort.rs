//! Counter kept in sorted index arrays.
//!
//! Three arrays are maintained:
//! * `values` - the distinct elements, addressed by index;
//! * `value_order` - `(index, count)` pairs in increasing element order;
//! * `count_order` - the same pairs in decreasing count order, ties in
//!   increasing element order.

use vstd::prelude::*;
use vstd::multiset::Multiset;
use crate::key::{ordered_key, key_lt, lemma_key_order, compare_keys, KeyOrder};
use crate::count::model::{entries_multiset, entries_total, distinct_keys, has_key, copies, lemma_copies, lemma_entries_count, lemma_entries_dom, lemma_entries_len, lemma_entries_insert, lemma_entries_remove, lemma_entries_update};
use crate::std_ext::vec_shrink_to_fit;

verus! {

broadcast use vstd::multiset::group_multiset_axioms;

/// Entries are in strictly increasing element order.
pub open spec fn sorted_by_key<T: Ord>(s: Seq<(T, usize)>) -> bool {
    forall|i: int, j: int| #![trigger s[i], s[j]] 0 <= i < j < s.len() ==> key_lt(s[i].0, s[j].0)
}

/// `a` comes before `b` in count order: larger counts first, ties by element.
pub open spec fn count_before<T: Ord>(a: (T, usize), b: (T, usize)) -> bool {
    a.1 > b.1 || (a.1 == b.1 && key_lt(a.0, b.0))
}

/// Entries are in strictly increasing count order.
pub open spec fn sorted_by_count<T: Ord>(s: Seq<(T, usize)>) -> bool {
    forall|i: int, j: int| #![trigger s[i], s[j]] 0 <= i < j < s.len() ==> count_before(s[i], s[j])
}

/// Counter kept in sorted index arrays.
#[derive(Clone, PartialEq, Eq, PartialOrd, Ord, Hash, Debug)]
pub struct SortedCounter<T: Ord> {
    values: Vec<T>,
    value_order: Vec<(usize, usize)>,
    count_order: Vec<(usize, usize)>,
}

impl<T: Ord> SortedCounter<T> {
    /// Entries in increasing element order.
    pub closed spec fn by_value(&self) -> Seq<(T, usize)> {
        Seq::new(
            self.value_order@.len(),
            |i: int| (self.values@[self.value_order@[i].0 as int], self.value_order@[i].1),
        )
    }

    /// Entries in decreasing count order.
    pub closed spec fn by_count(&self) -> Seq<(T, usize)> {
        Seq::new(
            self.count_order@.len(),
            |i: int| (self.values@[self.count_order@[i].0 as int], self.count_order@[i].1),
        )
    }

    /// Every index of `value_order` addresses an element.
    closed spec fn value_indices_ok(&self) -> bool {
        forall|i: int|
            0 <= i < self.value_order@.len() ==> #[trigger] self.value_order@[i].0
                < self.values@.len()
    }

    /// Every index of `count_order` addresses an element.
    closed spec fn count_indices_ok(&self) -> bool {
        forall|i: int|
            0 <= i < self.count_order@.len() ==> #[trigger] self.count_order@[i].0
                < self.values@.len()
    }

    /// Internal consistency of the three arrays.
    pub closed spec fn wf(&self) -> bool {
        let n = self.values@.len();
        &&& self.value_order@.len() == n
        &&& self.count_order@.len() == n
        &&& self.value_indices_ok()
        &&& self.count_indices_ok()
        &&& forall|i: int| 0 <= i < n ==> #[trigger] self.value_order@[i].1 > 0
        &&& forall|i: int| 0 <= i < n ==> #[trigger] self.count_order@[i].1 > 0
        &&& sorted_by_key(self.by_value())
        &&& sorted_by_count(self.by_count())
        &&& distinct_keys(self.by_count())
        &&& forall|k: int, l: int|
            #![trigger self.values@[k], self.values@[l]]
            0 <= k < l < n ==> self.values@[k] != self.values@[l]
        &&& forall|k: int| 0 <= k < n ==> has_key(self.by_value(), #[trigger] self.values@[k])
        &&& entries_multiset(self.by_count()) == entries_multiset(self.by_value())
    }
}

impl<T: Ord> View for SortedCounter<T> {
    type V = Multiset<T>;

    /// The counter as a multiset of its elements.
    open spec fn view(&self) -> Multiset<T> {
        entries_multiset(self.by_value())
    }
}

/// Strict key order gives distinct keys.
proof fn lemma_sorted_distinct<T: Ord>(s: Seq<(T, usize)>)
    requires
        ordered_key::<T>(),
        sorted_by_key(s),
    ensures
        distinct_keys(s),
{
    lemma_key_order::<T>();
    assert forall|i: int, j: int| 0 <= i < j < s.len() implies s[i].0 != s[j].0 by {
        assert(key_lt(s[i].0, s[j].0));
    }
}

/// Count order is a strict total order on entries with distinct elements.
proof fn lemma_count_order<T: Ord>()
    requires
        ordered_key::<T>(),
    ensures
        forall|a: (T, usize), b: (T, usize)| #[trigger] count_before(a, b) ==> !count_before(b, a) && a != b,
        forall|a: (T, usize), b: (T, usize), c: (T, usize)|
            #![trigger count_before(a, b), count_before(b, c)]
            count_before(a, b) && count_before(b, c) ==> count_before(a, c),
{
    lemma_key_order::<T>();
}

/// Index of an element after the last element has been moved to `hole`.
spec fn remap_index(k: usize, last: usize, hole: usize) -> usize {
    if k == last {
        hole
    } else {
        k
    }
}

impl<T: Ord> SortedCounter<T> {
    /// Search `count_order` for the entry `(value, count)`.
    fn binary_search_count(&self, value: &T, count: usize) -> (res: Result<usize, usize>)
        requires
            ordered_key::<T>(),
            self.count_indices_ok(),
            sorted_by_count(self.by_count()),
        ensures
            match res {
                Ok(i) => i < self.by_count().len() && self.by_count()[i as int] == (*value, count),
                Err(i) => {
                    &&& i <= self.by_count().len()
                    &&& forall|k: int|
                        0 <= k < i ==> count_before(#[trigger] self.by_count()[k], (*value, count))
                    &&& forall|k: int|
                        i <= k < self.by_count().len() ==> count_before(
                            (*value, count),
                            #[trigger] self.by_count()[k],
                        )
                },
            },
    {
        let ghost s = self.by_count();
        let ghost target = (*value, count);
        let mut lo: usize = 0;
        let mut hi: usize = self.count_order.len();
        while lo < hi
            invariant
                ordered_key::<T>(),
                self.count_indices_ok(),
                sorted_by_count(s),
                s == self.by_count(),
                target == (*value, count),
                s.len() == self.count_order@.len(),
                0 <= lo <= hi <= s.len(),
                forall|k: int| 0 <= k < lo ==> count_before(#[trigger] s[k], target),
                forall|k: int| hi <= k < s.len() ==> count_before(target, #[trigger] s[k]),
            decreases hi - lo,
        {
            proof {
                lemma_key_order::<T>();
                lemma_count_order::<T>();
            }
            let mid = lo + (hi - lo) / 2;
            let (index, probe_count) = self.count_order[mid];
            assert(s[mid as int] == (self.values@[index as int], probe_count));
            let before = if probe_count > count {
                true
            } else if probe_count < count {
                false
            } else {
                match compare_keys(&self.values[index], value) {
                    KeyOrder::Less => true,
                    KeyOrder::Greater => false,
                    KeyOrder::Equal => {
                        return Ok(mid);
                    },
                }
            };
            if before {
                assert(count_before(s[mid as int], target));
                assert forall|k: int| 0 <= k < mid + 1 implies count_before(#[trigger] s[k], target) by {
                    if k < mid {
                        assert(count_before(s[k], s[mid as int]));
                    }
                }
                lo = mid + 1;
            } else {
                assert(count_before(target, s[mid as int]));
                assert forall|k: int| mid <= k < s.len() implies count_before(target, #[trigger] s[k]) by {
                    if k > mid {
                        assert(count_before(s[mid as int], s[k]));
                    }
                }
                hi = mid;
            }
        }
        Err(lo)
    }

    /// Put the entry of element `value_index` into `count_order`.
    fn insert_count(&mut self, value_index: usize, count: usize)
        requires
            ordered_key::<T>(),
            old(self).count_indices_ok(),
            sorted_by_count(old(self).by_count()),
            value_index < old(self).values@.len(),
            !has_key(old(self).by_count(), old(self).values@[value_index as int]),
        ensures
            final(self).values@ == old(self).values@,
            final(self).value_order@ == old(self).value_order@,
            final(self).count_indices_ok(),
            sorted_by_count(final(self).by_count()),
            final(self).count_order@.len() == old(self).count_order@.len() + 1,
            entries_multiset(final(self).by_count()) == entries_multiset(old(self).by_count()).add(
                copies(old(self).values@[value_index as int], count as nat),
            ),
            distinct_keys(old(self).by_count()) ==> distinct_keys(final(self).by_count()),
            count > 0 && (forall|i: int| 0 <= i < old(self).count_order@.len() ==> #[trigger] old(self).count_order@[i].1 > 0)
                ==> forall|i: int| 0 <= i < final(self).count_order@.len() ==> #[trigger] final(self).count_order@[i].1 > 0,
    {
        let ghost s = self.by_count();
        let ghost v = self.values@[value_index as int];
        let ghost t = (v, count);
        let value = &self.values[value_index];
        let found = self.binary_search_count(value, count);
        proof {
            if let Ok(i) = found {
                assert(s[i as int].0 == v);
            }
        }
        let index = found.unwrap_err();
        self.count_order.insert(index, (value_index, count));
        proof {
            lemma_key_order::<T>();
            lemma_count_order::<T>();
            let s2 = self.by_count();
            assert(s2 =~= s.insert(index as int, t));
            assert forall|i: int| 0 <= i < self.count_order@.len() implies #[trigger] self.count_order@[i]
                == if i < index { old(self).count_order@[i] } else if i == index { (value_index, count) } else { old(self).count_order@[i - 1] } by {
            }
            assert forall|i: int, j: int| #![trigger s2[i], s2[j]] 0 <= i < j < s2.len() implies count_before(s2[i], s2[j]) by {
                if j < index {
                    assert(s2[i] == s[i] && s2[j] == s[j]);
                } else if j == index {
                    assert(s2[i] == s[i]);
                } else if i < index {
                    assert(s2[i] == s[i] && s2[j] == s[j - 1]);
                } else if i == index {
                    assert(s2[j] == s[j - 1]);
                } else {
                    assert(s2[i] == s[i - 1] && s2[j] == s[j - 1]);
                }
            }
            lemma_entries_insert(s, index as int, t);
            if distinct_keys(s) {
                assert forall|i: int, j: int| 0 <= i < j < s2.len() implies s2[i].0 != s2[j].0 by {
                    if i == index {
                        assert(s2[j] == s[j - 1]);
                    } else if j == index {
                        assert(s2[i] == s[i]);
                    } else {
                        let i0 = if i < index { i } else { i - 1 };
                        let j0 = if j < index { j } else { j - 1 };
                        assert(s2[i] == s[i0] && s2[j] == s[j0]);
                    }
                }
            }
        }
    }

    /// Move the entry of element `value_index` to its place for `current_count`.
    fn update_count(&mut self, value_index: usize, previous_count: usize, current_count: usize)
        requires
            ordered_key::<T>(),
            old(self).count_indices_ok(),
            sorted_by_count(old(self).by_count()),
            distinct_keys(old(self).by_count()),
            value_index < old(self).values@.len(),
            old(self).by_count().contains((old(self).values@[value_index as int], previous_count)),
        ensures
            final(self).values@ == old(self).values@,
            final(self).value_order@ == old(self).value_order@,
            final(self).count_indices_ok(),
            sorted_by_count(final(self).by_count()),
            distinct_keys(final(self).by_count()),
            final(self).count_order@.len() == old(self).count_order@.len(),
            current_count > 0 && (forall|i: int| 0 <= i < old(self).count_order@.len() ==> #[trigger] old(self).count_order@[i].1 > 0)
                ==> forall|i: int| 0 <= i < final(self).count_order@.len() ==> #[trigger] final(self).count_order@[i].1 > 0,
            entries_multiset(final(self).by_count()).add(
                copies(old(self).values@[value_index as int], previous_count as nat),
            ) == entries_multiset(old(self).by_count()).add(
                copies(old(self).values@[value_index as int], current_count as nat),
            ),
    {
        let ghost s = self.by_count();
        let ghost v = self.values@[value_index as int];
        let value = &self.values[value_index];
        let found = self.binary_search_count(value, previous_count);
        proof {
            lemma_key_order::<T>();
            lemma_count_order::<T>();
            let j = choose|j: int| 0 <= j < s.len() && s[j] == (v, previous_count);
            if let Err(i) = found {
                if j < i {
                    assert(count_before(s[j], (v, previous_count)));
                } else {
                    assert(count_before((v, previous_count), s[j]));
                }
            }
        }
        let index = found.unwrap();
        self.count_order.remove(index);
        proof {
            let s1 = self.by_count();
            assert(s1 =~= s.remove(index as int));
            assert(self.count_indices_ok()) by {
                assert forall|i: int| 0 <= i < self.count_order@.len() implies #[trigger] self.count_order@[i].0
                    < self.values@.len() by {
                    if i < index {
                        assert(self.count_order@[i] == old(self).count_order@[i]);
                    } else {
                        assert(self.count_order@[i] == old(self).count_order@[i + 1]);
                    }
                }
            }
            assert forall|i: int, j: int| #![trigger s1[i], s1[j]] 0 <= i < j < s1.len() implies count_before(s1[i], s1[j]) by {
                let i0 = if i < index { i } else { i + 1 };
                let j0 = if j < index { j } else { j + 1 };
                assert(s1[i] == s[i0] && s1[j] == s[j0]);
            }
            assert(distinct_keys(s1)) by {
                assert forall|i: int, j: int| 0 <= i < j < s1.len() implies s1[i].0 != s1[j].0 by {
                    let i0 = if i < index { i } else { i + 1 };
                    let j0 = if j < index { j } else { j + 1 };
                    assert(s1[i] == s[i0] && s1[j] == s[j0]);
                }
            }
            assert(!has_key(s1, v)) by {
                if has_key(s1, v) {
                    let k = choose|k: int| 0 <= k < s1.len() && s1[k].0 == v;
                    let k0 = if k < index { k } else { k + 1 };
                    assert(s1[k] == s[k0]);
                }
            }
            if forall|i: int| 0 <= i < old(self).count_order@.len() ==> #[trigger] old(self).count_order@[i].1 > 0 {
                assert forall|i: int| 0 <= i < self.count_order@.len() implies #[trigger] self.count_order@[i].1 > 0 by {
                    let i0 = if i < index { i } else { i + 1 };
                    assert(self.count_order@[i] == old(self).count_order@[i0]);
                }
            }
            lemma_entries_remove(s, index as int);
        }
        self.insert_count(value_index, current_count);
    }

    /// Add a new element with `count` at position `index` of the element order.
    fn insert_value(&mut self, value: T, index: usize, count: usize)
        requires
            ordered_key::<T>(),
            old(self).wf(),
            count > 0,
            index <= old(self).by_value().len(),
            forall|k: int| 0 <= k < index ==> key_lt(#[trigger] old(self).by_value()[k].0, value),
            forall|k: int|
                index <= k < old(self).by_value().len() ==> key_lt(
                    value,
                    #[trigger] old(self).by_value()[k].0,
                ),
        ensures
            final(self).wf(),
            final(self).by_value() == old(self).by_value().insert(index as int, (value, count)),
    {
        let ghost bv0 = self.by_value();
        let ghost bc0 = self.by_count();
        let ghost values0 = self.values@;
        let ghost vo0 = self.value_order@;
        let ghost v = value;
        proof {
            lemma_key_order::<T>();
        }
        let value_index = self.values.len();
        self.values.push(value);
        self.value_order.insert(index, (value_index, count));
        proof {
            assert forall|i: int| 0 <= i < self.value_order@.len() implies #[trigger] self.value_order@[i]
                == if i < index { vo0[i] } else if i == index { (value_index, count) } else { vo0[i - 1] } by {
            }
            assert(self.by_value() =~= bv0.insert(index as int, (v, count)));
            assert(self.by_count() =~= bc0);
            assert(!has_key(bv0, v)) by {
                if has_key(bv0, v) {
                    let k = choose|k: int| 0 <= k < bv0.len() && bv0[k].0 == v;
                    if k < index {
                        assert(key_lt(bv0[k].0, v));
                    } else {
                        assert(key_lt(v, bv0[k].0));
                    }
                }
            }
            crate::count::model::lemma_entries_count(bv0, v);
            crate::count::model::lemma_entries_count(bc0, v);
            assert(!has_key(bc0, v)) by {
                if has_key(bc0, v) {
                    let j = choose|j: int| 0 <= j < bc0.len() && bc0[j].0 == v;
                    assert(old(self).count_order@[j].1 > 0);
                }
            }
            assert(self.count_indices_ok()) by {
                assert forall|i: int| 0 <= i < self.count_order@.len() implies #[trigger] self.count_order@[i].0
                    < self.values@.len() by {
                    assert(old(self).count_order@[i].0 < values0.len());
                }
            }
        }
        self.insert_count(value_index, count);
        proof {
            let bv = self.by_value();
            let n = self.values@.len();
            assert(self.values@ == values0.push(v));
            assert(bv =~= bv0.insert(index as int, (v, count)));
            lemma_entries_insert(bv0, index as int, (v, count));
            assert(self.value_indices_ok()) by {
                assert forall|i: int| 0 <= i < self.value_order@.len() implies #[trigger] self.value_order@[i].0
                    < self.values@.len() by {
                    if i < index {
                        assert(self.value_order@[i] == vo0[i]);
                    } else if i > index {
                        assert(self.value_order@[i] == vo0[i - 1]);
                    }
                }
            }
            assert forall|i: int| 0 <= i < n implies #[trigger] self.value_order@[i].1 > 0 by {
                if i < index {
                    assert(self.value_order@[i] == vo0[i]);
                } else if i > index {
                    assert(self.value_order@[i] == vo0[i - 1]);
                }
            }
            assert forall|i: int, j: int| #![trigger bv[i], bv[j]] 0 <= i < j < bv.len() implies key_lt(bv[i].0, bv[j].0) by {
                if j < index {
                    assert(bv[i] == bv0[i] && bv[j] == bv0[j]);
                } else if j == index {
                    assert(bv[i] == bv0[i]);
                } else if i < index {
                    assert(bv[i] == bv0[i] && bv[j] == bv0[j - 1]);
                } else if i == index {
                    assert(bv[j] == bv0[j - 1]);
                } else {
                    assert(bv[i] == bv0[i - 1] && bv[j] == bv0[j - 1]);
                }
            }
            assert forall|k: int| 0 <= k < n implies has_key(bv, #[trigger] self.values@[k]) by {
                if k == n - 1 {
                    assert(bv[index as int].0 == v);
                } else {
                    assert(self.values@[k] == values0[k]);
                    assert(has_key(bv0, values0[k]));
                    let i = choose|i: int| 0 <= i < bv0.len() && bv0[i].0 == values0[k];
                    if i < index {
                        assert(bv[i] == bv0[i]);
                    } else {
                        assert(bv[i + 1] == bv0[i]);
                    }
                }
            }
            assert forall|k: int, l: int|
                #![trigger self.values@[k], self.values@[l]]
                0 <= k < l < n implies self.values@[k] != self.values@[l] by {
                if l == n - 1 {
                    assert(has_key(bv0, values0[k]));
                    let i = choose|i: int| 0 <= i < bv0.len() && bv0[i].0 == values0[k];
                    if self.values@[k] == v {
                        assert(has_key(bv0, v));
                    }
                } else {
                    assert(values0[k] != values0[l]);
                }
            }
        }
    }

    /// Take the element at position `index` of the element order out of the
    /// counter, returning its count.
    #[verifier::rlimit(80)]
    #[verifier::spinoff_prover]
    fn remove_value(&mut self, index: usize) -> (count: usize)
        requires
            ordered_key::<T>(),
            old(self).wf(),
            index < old(self).by_value().len(),
        ensures
            final(self).wf(),
            final(self).by_value() == old(self).by_value().remove(index as int),
            count == old(self).by_value()[index as int].1,
    {
        let ghost bv0 = self.by_value();
        let ghost bc0 = self.by_count();
        let ghost values0 = self.values@;
        let ghost vo0 = self.value_order@;
        let ghost co0 = self.count_order@;
        let ghost n = values0.len();
        proof {
            lemma_key_order::<T>();
            lemma_sorted_distinct(bv0);
        }
        let (value_index, count) = self.value_order.remove(index);
        let ghost v = values0[value_index as int];
        let ghost vo1 = self.value_order@;
        let ghost bv1 = self.by_value();
        proof {
            assert forall|i: int| 0 <= i < vo1.len() implies #[trigger] vo1[i]
                == if i < index { vo0[i] } else { vo0[i + 1] } by {
            }
            assert(bv1 =~= bv0.remove(index as int));
            assert(bv0[index as int] == (v, count));
            // the entry of `v` is also in count order
            crate::count::model::lemma_entries_count(bv0, v);
            crate::count::model::lemma_entries_count(bc0, v);
            assert(has_key(bc0, v)) by {
                assert(bv0[index as int].0 == v);
            }
            let j = choose|j: int| 0 <= j < bc0.len() && bc0[j].0 == v;
            assert(bc0[j] == (v, count));
            assert(bc0.contains((v, count)));
            // no other entry refers to `value_index`
            assert forall|i: int| 0 <= i < vo1.len() implies #[trigger] vo1[i].0 != value_index by {
                let i0 = if i < index { i } else { i + 1 };
                assert(vo1[i] == vo0[i0]);
                assert(bv0[i0].0 != bv0[index as int].0);
            }
        }
        let value = &self.values[value_index];
        let found = self.binary_search_count(value, count);
        proof {
            lemma_count_order::<T>();
            let j = choose|j: int| 0 <= j < bc0.len() && bc0[j] == (v, count);
            if let Err(i) = found {
                if j < i {
                    assert(count_before(bc0[j], (v, count)));
                } else {
                    assert(count_before((v, count), bc0[j]));
                }
            }
        }
        let count_index = found.unwrap();
        self.count_order.remove(count_index);
        let ghost co2 = self.count_order@;
        let ghost bc2 = self.by_count();
        proof {
            assert forall|i: int| 0 <= i < co2.len() implies #[trigger] co2[i]
                == if i < count_index { co0[i] } else { co0[i + 1] } by {
            }
            assert(bc2 =~= bc0.remove(count_index as int));
            lemma_entries_remove(bc0, count_index as int);
            lemma_entries_remove(bv0, index as int);
            assert(entries_multiset(bc2) =~= entries_multiset(bv1)) by {
                assert forall|x: T| #[trigger] entries_multiset(bc2).count(x) == entries_multiset(bv1).count(x) by {
                    assert(entries_multiset(bc0).count(x) == entries_multiset(bv0).count(x));
                }
            }
            assert forall|i: int| 0 <= i < co2.len() implies #[trigger] co2[i].0 != value_index by {
                let i0 = if i < count_index { i } else { i + 1 };
                assert(co2[i] == co0[i0]);
                assert(bc0[i0].0 != bc0[count_index as int].0);
            }
        }
        let swapping_value_index = self.values.len() - 1;
        let ghost last = swapping_value_index;
        if swapping_value_index != value_index {
            let ghost w = values0[last as int];
            proof {
                assert(w != v) by {
                    if value_index < last {
                        assert(values0[value_index as int] != values0[last as int]);
                    } else {
                        assert(values0[last as int] != values0[value_index as int]);
                    }
                }
                assert(has_key(bv0, w));
                let i0 = choose|i: int| 0 <= i < bv0.len() && bv0[i].0 == w;
                assert(i0 != index);
                let i1 = if i0 < index { i0 } else { i0 - 1 };
                assert(bv1[i1].0 == w);
                assert(sorted_by_key(bv1)) by {
                    assert forall|a: int, b: int| #![trigger bv1[a], bv1[b]] 0 <= a < b < bv1.len() implies key_lt(bv1[a].0, bv1[b].0) by {
                        let a0 = if a < index { a } else { a + 1 };
                        let b0 = if b < index { b } else { b + 1 };
                        assert(bv1[a] == bv0[a0] && bv1[b] == bv0[b0]);
                    }
                }
                assert(self.value_indices_ok()) by {
                    assert forall|i: int| 0 <= i < vo1.len() implies #[trigger] vo1[i].0 < self.values@.len() by {
                        let i0 = if i < index { i } else { i + 1 };
                        assert(vo0[i0].0 < n);
                    }
                }
            }
            let value = &self.values[swapping_value_index];
            let found = self.binary_search_value(value);
            proof {
                let i0 = choose|i: int| 0 <= i < bv1.len() && bv1[i].0 == w;
                if let Err(q) = found {
                    if i0 < q {
                        assert(key_lt(bv1[i0].0, w));
                    } else {
                        assert(key_lt(w, bv1[i0].0));
                    }
                }
            }
            let swapping_index = found.unwrap();
            let swapping_count = self.value_order[swapping_index].1;
            proof {
                // the entry found refers to the last element
                let k = vo1[swapping_index as int].0;
                assert(values0[k as int] == w);
                if k != last {
                    if k < last {
                        assert(values0[k as int] != values0[last as int]);
                    } else {
                        assert(values0[last as int] != values0[k as int]);
                    }
                }
                assert(k == last);
            }
            self.value_order.set(swapping_index, (value_index, swapping_count));
            let ghost vo3 = self.value_order@;
            proof {
                // its entry in count order
                lemma_sorted_distinct(bv1);
                crate::count::model::lemma_entries_count(bv1, w);
                crate::count::model::lemma_entries_count(bc2, w);
                assert(bv1[swapping_index as int] == (w, swapping_count));
                assert(has_key(bc2, w)) by {
                    if !has_key(bc2, w) {
                        assert(entries_multiset(bc2).count(w) == 0);
                        assert(vo1[swapping_index as int].1 > 0) by {
                            let s0 = if swapping_index < index { swapping_index as int } else { swapping_index + 1 };
                            assert(vo1[swapping_index as int] == vo0[s0]);
                        }
                    }
                }
                let r = choose|r: int| 0 <= r < bc2.len() && bc2[r].0 == w;
                assert(distinct_keys(bc2)) by {
                    assert forall|a: int, b: int| 0 <= a < b < bc2.len() implies bc2[a].0 != bc2[b].0 by {
                        let a0 = if a < count_index { a } else { a + 1 };
                        let b0 = if b < count_index { b } else { b + 1 };
                        assert(bc2[a] == bc0[a0] && bc2[b] == bc0[b0]);
                    }
                }
                assert(bc2[r] == (w, swapping_count));
                assert(sorted_by_count(bc2)) by {
                    assert forall|a: int, b: int| #![trigger bc2[a], bc2[b]] 0 <= a < b < bc2.len() implies count_before(bc2[a], bc2[b]) by {
                        let a0 = if a < count_index { a } else { a + 1 };
                        let b0 = if b < count_index { b } else { b + 1 };
                        assert(bc2[a] == bc0[a0] && bc2[b] == bc0[b0]);
                    }
                }
                assert(self.count_indices_ok()) by {
                    assert forall|i: int| 0 <= i < co2.len() implies #[trigger] co2[i].0 < self.values@.len() by {
                        let i0 = if i < count_index { i } else { i + 1 };
                        assert(co0[i0].0 < n);
                    }
                }
                assert(self.by_count() == bc2);
            }
            let value = &self.values[swapping_value_index];
            let found = self.binary_search_count(value, swapping_count);
            proof {
                lemma_count_order::<T>();
                let r = choose|r: int| 0 <= r < bc2.len() && bc2[r] == (w, swapping_count);
                if let Err(q) = found {
                    if r < q {
                        assert(count_before(bc2[r], (w, swapping_count)));
                    } else {
                        assert(count_before((w, swapping_count), bc2[r]));
                    }
                }
            }
            let swapping_count_index = found.unwrap();
            proof {
                let k = co2[swapping_count_index as int].0;
                assert(values0[k as int] == w);
                if k != last {
                    if k < last {
                        assert(values0[k as int] != values0[last as int]);
                    } else {
                        assert(values0[last as int] != values0[k as int]);
                    }
                }
            }
            self.count_order.set(swapping_count_index, (value_index, swapping_count));
            proof {
                assert forall|i: int| 0 <= i < self.value_order@.len() implies #[trigger] self.value_order@[i]
                    == (remap_index(vo1[i].0, last, value_index), vo1[i].1) by {
                    if i != swapping_index {
                        if vo1[i].0 == last {
                            assert(bv1[i].0 == bv1[swapping_index as int].0);
                        }
                    }
                }
                assert forall|i: int| 0 <= i < self.count_order@.len() implies #[trigger] self.count_order@[i]
                    == (remap_index(co2[i].0, last, value_index), co2[i].1) by {
                    if i != swapping_count_index {
                        if co2[i].0 == last {
                            assert(bc2[i].0 == bc2[swapping_count_index as int].0);
                        }
                    }
                }
            }
        } else {
            proof {
                assert forall|i: int| 0 <= i < self.value_order@.len() implies #[trigger] self.value_order@[i]
                    == (remap_index(vo1[i].0, last, value_index), vo1[i].1) by {
                }
                assert forall|i: int| 0 <= i < self.count_order@.len() implies #[trigger] self.count_order@[i]
                    == (remap_index(co2[i].0, last, value_index), co2[i].1) by {
                }
            }
        }
        self.values.swap_remove(value_index);
        proof {
            let values5 = self.values@;
            let vo5 = self.value_order@;
            let co5 = self.count_order@;
            let m = values5.len();
            assert(m == n - 1);
            assert forall|k: int| 0 <= k < m implies #[trigger] values5[k]
                == if k == value_index { values0[last as int] } else { values0[k] } by {
            }
            assert forall|i: int| 0 <= i < vo1.len() implies #[trigger] vo1[i].0 != value_index && vo1[i].0 < n by {
                let i0 = if i < index { i } else { i + 1 };
                assert(vo1[i] == vo0[i0]);
            }
            assert forall|i: int| 0 <= i < co2.len() implies #[trigger] co2[i].0 != value_index && co2[i].0 < n by {
                let i0 = if i < count_index { i } else { i + 1 };
                assert(co2[i] == co0[i0]);
            }
            assert(self.by_value() =~= bv1) by {
                assert forall|i: int| 0 <= i < vo5.len() implies #[trigger] self.by_value()[i] == bv1[i] by {
                    assert(vo5[i] == (remap_index(vo1[i].0, last, value_index), vo1[i].1));
                }
            }
            assert(self.by_count() =~= bc2) by {
                assert forall|i: int| 0 <= i < co5.len() implies #[trigger] self.by_count()[i] == bc2[i] by {
                    assert(co5[i] == (remap_index(co2[i].0, last, value_index), co2[i].1));
                }
            }
            assert(self.value_indices_ok()) by {
                assert forall|i: int| 0 <= i < vo5.len() implies #[trigger] vo5[i].0 < m by {
                    assert(vo5[i] == (remap_index(vo1[i].0, last, value_index), vo1[i].1));
                }
            }
            assert(self.count_indices_ok()) by {
                assert forall|i: int| 0 <= i < co5.len() implies #[trigger] co5[i].0 < m by {
                    assert(co5[i] == (remap_index(co2[i].0, last, value_index), co2[i].1));
                }
            }
            assert forall|i: int| 0 <= i < m implies #[trigger] vo5[i].1 > 0 by {
                let i0 = if i < index { i } else { i + 1 };
                assert(vo5[i].1 == vo1[i].1 && vo1[i] == vo0[i0]);
            }
            assert forall|i: int| 0 <= i < m implies #[trigger] co5[i].1 > 0 by {
                let i0 = if i < count_index { i } else { i + 1 };
                assert(co5[i].1 == co2[i].1 && co2[i] == co0[i0]);
            }
            assert(sorted_by_key(bv1)) by {
                assert forall|a: int, b: int| #![trigger bv1[a], bv1[b]] 0 <= a < b < bv1.len() implies key_lt(bv1[a].0, bv1[b].0) by {
                    let a0 = if a < index { a } else { a + 1 };
                    let b0 = if b < index { b } else { b + 1 };
                    assert(bv1[a] == bv0[a0] && bv1[b] == bv0[b0]);
                }
            }
            assert(sorted_by_count(bc2)) by {
                assert forall|a: int, b: int| #![trigger bc2[a], bc2[b]] 0 <= a < b < bc2.len() implies count_before(bc2[a], bc2[b]) by {
                    let a0 = if a < count_index { a } else { a + 1 };
                    let b0 = if b < count_index { b } else { b + 1 };
                    assert(bc2[a] == bc0[a0] && bc2[b] == bc0[b0]);
                }
            }
            assert(distinct_keys(bc2)) by {
                assert forall|a: int, b: int| 0 <= a < b < bc2.len() implies bc2[a].0 != bc2[b].0 by {
                    let a0 = if a < count_index { a } else { a + 1 };
                    let b0 = if b < count_index { b } else { b + 1 };
                    assert(bc2[a] == bc0[a0] && bc2[b] == bc0[b0]);
                }
            }
            assert forall|k: int, l: int|
                #![trigger values5[k], values5[l]]
                0 <= k < l < m implies values5[k] != values5[l] by {
                let k0 = if k == value_index { last as int } else { k };
                let l0 = if l == value_index { last as int } else { l };
                assert(values5[k] == values0[k0] && values5[l] == values0[l0]);
                if k0 < l0 {
                    assert(values0[k0] != values0[l0]);
                } else {
                    assert(values0[l0] != values0[k0]);
                }
            }
            assert forall|k: int| 0 <= k < m implies has_key(bv1, #[trigger] values5[k]) by {
                let k0 = if k == value_index { last as int } else { k };
                assert(values5[k] == values0[k0]);
                assert(has_key(bv0, values0[k0]));
                let i0 = choose|i: int| 0 <= i < bv0.len() && bv0[i].0 == values0[k0];
                assert(values0[k0] != v) by {
                    if k0 < value_index {
                        assert(values0[k0] != values0[value_index as int]);
                    } else {
                        assert(values0[value_index as int] != values0[k0]);
                    }
                }
                assert(i0 != index);
                if i0 < index {
                    assert(bv1[i0] == bv0[i0]);
                } else {
                    assert(bv1[i0 - 1] == bv0[i0]);
                }
            }
        }
        count
    }

    /// Search `value_order` for `value`.
    fn binary_search_value(&self, value: &T) -> (res: Result<usize, usize>)
        requires
            ordered_key::<T>(),
            self.value_indices_ok(),
            sorted_by_key(self.by_value()),
        ensures
            match res {
                Ok(i) => i < self.by_value().len() && self.by_value()[i as int].0 == *value,
                Err(i) => {
                    &&& i <= self.by_value().len()
                    &&& forall|k: int| 0 <= k < i ==> key_lt(#[trigger] self.by_value()[k].0, *value)
                    &&& forall|k: int|
                        i <= k < self.by_value().len() ==> key_lt(
                            *value,
                            #[trigger] self.by_value()[k].0,
                        )
                },
            },
    {
        proof {
            lemma_key_order::<T>();
        }
        let ghost s = self.by_value();
        let mut lo: usize = 0;
        let mut hi: usize = self.value_order.len();
        while lo < hi
            invariant
                ordered_key::<T>(),
                self.value_indices_ok(),
                sorted_by_key(s),
                s == self.by_value(),
                s.len() == self.value_order@.len(),
                0 <= lo <= hi <= s.len(),
                forall|k: int| 0 <= k < lo ==> key_lt(#[trigger] s[k].0, *value),
                forall|k: int| hi <= k < s.len() ==> key_lt(*value, #[trigger] s[k].0),
            decreases hi - lo,
        {
            proof {
                lemma_key_order::<T>();
            }
            let mid = lo + (hi - lo) / 2;
            let index = self.value_order[mid].0;
            assert(s[mid as int].0 == self.values@[index as int]);
            match compare_keys(&self.values[index], value) {
                KeyOrder::Less => {
                    assert forall|k: int| 0 <= k < mid + 1 implies key_lt(#[trigger] s[k].0, *value) by {
                        if k < mid {
                            assert(key_lt(s[k].0, s[mid as int].0));
                        }
                    }
                    lo = mid + 1;
                },
                KeyOrder::Greater => {
                    assert forall|k: int| mid <= k < s.len() implies key_lt(*value, #[trigger] s[k].0) by {
                        if k > mid {
                            assert(key_lt(s[mid as int].0, s[k].0));
                        }
                    }
                    hi = mid;
                },
                KeyOrder::Equal => {
                    return Ok(mid);
                },
            }
        }
        Err(lo)
    }
}

impl<T: Ord> SortedCounter<T> {
    /// Facts about the view that follow from the internal consistency.
    proof fn lemma_view(&self)
        requires
            ordered_key::<T>(),
            self.wf(),
        ensures
            distinct_keys(self.by_value()),
            self.by_value().len() == self.values@.len(),
            self@.dom().len() == self.values@.len(),
            forall|i: int|
                0 <= i < self.by_value().len() ==> #[trigger] self@.count(self.by_value()[i].0)
                    == self.by_value()[i].1,
            forall|i: int|
                0 <= i < self.by_count().len() ==> #[trigger] self@.count(self.by_count()[i].0)
                    == self.by_count()[i].1,
            forall|v: T| !has_key(self.by_value(), v) ==> #[trigger] self@.count(v) == 0,
            forall|k: int| 0 <= k < self.values@.len() ==> #[trigger] self@.count(self.values@[k]) > 0,
    {
        lemma_sorted_distinct(self.by_value());
        let bv = self.by_value();
        let bc = self.by_count();
        assert forall|i: int| 0 <= i < bv.len() implies #[trigger] bv[i].1 > 0 by {
            assert(self.value_order@[i].1 > 0);
        }
        lemma_entries_dom(bv);
        assert forall|i: int| 0 <= i < bv.len() implies #[trigger] self@.count(bv[i].0) == bv[i].1 by {
            lemma_entries_count(bv, bv[i].0);
        }
        assert forall|i: int| 0 <= i < bc.len() implies #[trigger] self@.count(bc[i].0) == bc[i].1 by {
            lemma_entries_count(bc, bc[i].0);
        }
        assert forall|v: T| !has_key(bv, v) implies #[trigger] self@.count(v) == 0 by {
            lemma_entries_count(bv, v);
        }
        assert forall|k: int| 0 <= k < self.values@.len() implies #[trigger] self@.count(self.values@[k]) > 0 by {
            assert(has_key(bv, self.values@[k]));
            let i = choose|i: int| 0 <= i < bv.len() && bv[i].0 == self.values@[k];
            assert(self@.count(bv[i].0) == bv[i].1);
        }
    }

    /// What the listings show of the counter: `by_value` and `by_count`
    /// each list every element of the view once, with its count, which is
    /// positive; the first in increasing element order, the second in
    /// decreasing count order with ties in increasing element order; both
    /// hold the same pairs.
    pub open spec fn listed(&self) -> bool {
        let bv = self.by_value();
        let bc = self.by_count();
        &&& bv.len() == self@.dom().len()
        &&& bc.len() == self@.dom().len()
        &&& sorted_by_key(bv)
        &&& sorted_by_count(bc)
        &&& forall|i: int|
            0 <= i < bv.len() ==> #[trigger] bv[i].1 > 0 && self@.count(bv[i].0) == bv[i].1
        &&& forall|i: int|
            0 <= i < bc.len() ==> #[trigger] bc[i].1 > 0 && self@.count(bc[i].0) == bc[i].1
        &&& forall|x: T| #[trigger] self@.count(x) > 0 ==> has_key(bv, x) && has_key(bc, x)
        &&& forall|p: (T, usize)| #[trigger] bv.contains(p) == bc.contains(p)
    }

    /// Every well-formed counter is listed consistently: what
    /// `iter_by_value` and `iter_by_count` yield, element by element, is
    /// `by_value` and `by_count`. Each operation keeps `wf`, and so this.
    pub proof fn law_listed(&self)
        requires
            ordered_key::<T>(),
            self.wf(),
        ensures
            self.listed(),
    {
        self.lemma_view();
        let bv = self.by_value();
        let bc = self.by_count();
        assert forall|i: int| 0 <= i < bv.len() implies #[trigger] bv[i].1 > 0 by {
            assert(self.value_order@[i].1 > 0);
        }
        assert forall|i: int| 0 <= i < bc.len() implies #[trigger] bc[i].1 > 0 by {
            assert(self.count_order@[i].1 > 0);
        }
        lemma_entries_dom(bc);
        assert forall|x: T| #[trigger] self@.count(x) > 0 implies has_key(bv, x) && has_key(bc, x) by {
            lemma_entries_count(bc, x);
        }
        assert forall|p: (T, usize)| #[trigger] bv.contains(p) == bc.contains(p) by {
            if bv.contains(p) {
                let i = choose|i: int| 0 <= i < bv.len() && bv[i] == p;
                assert(self@.count(bv[i].0) == bv[i].1);
                assert(has_key(bc, p.0));
                let j = choose|j: int| 0 <= j < bc.len() && bc[j].0 == p.0;
                assert(self@.count(bc[j].0) == bc[j].1);
                assert(bc[j] == p);
            }
            if bc.contains(p) {
                let j = choose|j: int| 0 <= j < bc.len() && bc[j] == p;
                assert(self@.count(bc[j].0) == bc[j].1);
                assert(has_key(bv, p.0));
                let i = choose|i: int| 0 <= i < bv.len() && bv[i].0 == p.0;
                assert(self@.count(bv[i].0) == bv[i].1);
                assert(bv[i] == p);
            }
        }
    }

    /// An empty counter.
    pub fn new() -> (res: Self)
        ensures
            res.wf(),
            res@ == Multiset::<T>::empty(),
    {
        let res = SortedCounter { values: Vec::new(), value_order: Vec::new(), count_order: Vec::new() };
        proof {
            assert(res.by_value() =~= Seq::<(T, usize)>::empty());
            assert(res.by_count() =~= Seq::<(T, usize)>::empty());
        }
        res
    }

    /// An empty counter with room for `capacity` distinct elements.
    pub fn with_capacity(capacity: usize) -> (res: Self)
        ensures
            res.wf(),
            res@ == Multiset::<T>::empty(),
    {
        let res = SortedCounter {
            values: Vec::with_capacity(capacity),
            value_order: Vec::with_capacity(capacity),
            count_order: Vec::with_capacity(capacity),
        };
        proof {
            assert(res.by_value() =~= Seq::<(T, usize)>::empty());
            assert(res.by_count() =~= Seq::<(T, usize)>::empty());
        }
        res
    }

    /// Whether the counter holds no element.
    pub fn is_empty(&self) -> (res: bool)
        requires
            ordered_key::<T>(),
            self.wf(),
        ensures
            res == (self@.len() == 0),
    {
        proof {
            self.lemma_view();
            if self.values@.len() > 0 {
                assert(self@.count(self.values@[0]) > 0);
            } else {
                assert(self.by_value() =~= Seq::<(T, usize)>::empty());
            }
        }
        self.values.is_empty()
    }

    /// Number of distinct elements.
    pub fn len(&self) -> (res: usize)
        requires
            ordered_key::<T>(),
            self.wf(),
        ensures
            res == self@.dom().len(),
    {
        proof {
            self.lemma_view();
        }
        self.values.len()
    }

    /// Number of elements, repetitions included.
    pub fn len_count(&self) -> (res: usize)
        requires
            self.wf(),
            self@.len() <= usize::MAX,
        ensures
            res == self@.len(),
    {
        let ghost bv = self.by_value();
        let mut total: usize = 0;
        let mut i: usize = 0;
        proof {
            lemma_entries_len(bv);
            assert(bv.take(0) =~= Seq::<(T, usize)>::empty());
        }
        while i < self.value_order.len()
            invariant
                self.wf(),
                bv == self.by_value(),
                entries_total(bv) == self@.len(),
                self@.len() <= usize::MAX,
                i <= bv.len(),
                bv.len() == self.value_order@.len(),
                total == entries_total(bv.take(i as int)),
            decreases bv.len() - i,
        {
            proof {
                assert(bv.take(i + 1).drop_last() =~= bv.take(i as int));
                crate::count::model::lemma_total_prefix(bv, i + 1);
                crate::count::model::lemma_total_prefix_le(bv, i + 1);
            }
            total = total + self.value_order[i].1;
            i = i + 1;
        }
        proof {
            assert(bv.take(i as int) =~= bv);
        }
        total
    }

    /// Remove every element.
    pub fn clear(&mut self)
        ensures
            final(self).wf(),
            final(self)@ == Multiset::<T>::empty(),
    {
        self.values.clear();
        self.value_order.clear();
        self.count_order.clear();
        proof {
            assert(self.by_value() =~= Seq::<(T, usize)>::empty());
            assert(self.by_count() =~= Seq::<(T, usize)>::empty());
        }
    }

    /// Reserve room for `additional` more distinct elements.
    pub fn reserve(&mut self, additional: usize)
        requires
            old(self).wf(),
        ensures
            final(self).wf(),
            final(self)@ == old(self)@,
    {
        self.values.reserve(additional);
        self.value_order.reserve(additional);
        self.count_order.reserve(additional);
        proof {
            assert(self.by_value() =~= old(self).by_value());
            assert(self.by_count() =~= old(self).by_count());
        }
    }

    /// Release spare capacity.
    pub fn shrink_to_fit(&mut self)
        requires
            old(self).wf(),
        ensures
            final(self).wf(),
            final(self)@ == old(self)@,
    {
        vec_shrink_to_fit(&mut self.values);
        vec_shrink_to_fit(&mut self.value_order);
        vec_shrink_to_fit(&mut self.count_order);
        proof {
            assert(self.by_value() =~= old(self).by_value());
            assert(self.by_count() =~= old(self).by_count());
        }
    }

    /// Whether `value` is counted.
    pub fn contains(&self, value: &T) -> (res: bool)
        requires
            ordered_key::<T>(),
            self.wf(),
        ensures
            res == (self@.count(*value) > 0),
    {
        proof {
            self.lemma_view();
        }
        let found = self.binary_search_value(value);
        proof {
            if found.is_err() {
                assert(!has_key(self.by_value(), *value)) by {
                    lemma_key_order::<T>();
                    if has_key(self.by_value(), *value) {
                        let k = choose|k: int| 0 <= k < self.by_value().len() && self.by_value()[k].0 == *value;
                        assert(key_lt(self.by_value()[k].0, *value) || key_lt(*value, self.by_value()[k].0));
                    }
                }
            } else {
                assert(self.value_order@[found.unwrap() as int].1 > 0);
            }
        }
        found.is_ok()
    }

    /// Count of `value`.
    pub fn get(&self, value: &T) -> (res: usize)
        requires
            ordered_key::<T>(),
            self.wf(),
        ensures
            res == self@.count(*value),
    {
        proof {
            self.lemma_view();
        }
        match self.binary_search_value(value) {
            Ok(index) => self.value_order[index].1,
            Err(_) => {
                proof {
                    lemma_key_order::<T>();
                    if has_key(self.by_value(), *value) {
                        let k = choose|k: int| 0 <= k < self.by_value().len() && self.by_value()[k].0 == *value;
                        assert(key_lt(self.by_value()[k].0, *value) || key_lt(*value, self.by_value()[k].0));
                    }
                }
                0
            },
        }
    }
}

impl<T: Ord> SortedCounter<T> {
    /// The element order and the count order hold the same entries.
    proof fn lemma_count_entry(&self, i: int)
        requires
            ordered_key::<T>(),
            self.wf(),
            0 <= i < self.by_value().len(),
        ensures
            self.by_count().contains(self.by_value()[i]),
    {
        self.lemma_view();
        let bv = self.by_value();
        let bc = self.by_count();
        let v = bv[i].0;
        lemma_entries_count(bc, v);
        assert(self.value_order@[i].1 > 0);
        assert(has_key(bc, v));
        let j = choose|j: int| 0 <= j < bc.len() && bc[j].0 == v;
        assert(bc[j] == bv[i]);
    }

    /// Set the count of the element at position `index` of the element order.
    fn set_count(&mut self, index: usize, count: usize)
        requires
            ordered_key::<T>(),
            old(self).wf(),
            index < old(self).by_value().len(),
            count > 0,
        ensures
            final(self).wf(),
            final(self).by_value() == old(self).by_value().update(
                index as int,
                (old(self).by_value()[index as int].0, count),
            ),
    {
        let ghost bv0 = self.by_value();
        let ghost bc0 = self.by_count();
        let (value_index, previous_count) = self.value_order[index];
        if count == previous_count {
            proof {
                assert(bv0.update(index as int, (bv0[index as int].0, count)) =~= bv0);
            }
            return;
        }
        proof {
            self.lemma_count_entry(index as int);
            lemma_sorted_distinct(bv0);
        }
        self.value_order.set(index, (value_index, count));
        let ghost v = bv0[index as int].0;
        let ghost bv1 = self.by_value();
        proof {
            assert(bv1 =~= bv0.update(index as int, (v, count)));
            assert(self.by_count() == bc0);
        }
        self.update_count(value_index, previous_count, count);
        proof {
            let bv = self.by_value();
            let bc = self.by_count();
            assert(self.values@ == old(self).values@);
            assert(bv =~= bv1);
            lemma_entries_update(bv0, index as int, (v, count));
            assert(entries_multiset(bc) =~= entries_multiset(bv)) by {
                assert forall|x: T| #[trigger] entries_multiset(bc).count(x) == entries_multiset(bv).count(x) by {
                    assert(entries_multiset(bc).add(copies(v, previous_count as nat)).count(x)
                        == entries_multiset(bv).add(copies(v, previous_count as nat)).count(x));
                }
            }
            assert(self.value_indices_ok()) by {
                assert forall|i: int| 0 <= i < self.value_order@.len() implies #[trigger] self.value_order@[i].0
                    < self.values@.len() by {
                    assert(old(self).value_order@[i].0 < self.values@.len());
                }
            }
            assert forall|i: int| 0 <= i < self.values@.len() implies #[trigger] self.value_order@[i].1 > 0 by {
                assert(old(self).value_order@[i].1 > 0);
            }
            assert forall|i: int, j: int| #![trigger bv[i], bv[j]] 0 <= i < j < bv.len() implies key_lt(bv[i].0, bv[j].0) by {
                assert(bv[i].0 == bv0[i].0 && bv[j].0 == bv0[j].0);
            }
            assert forall|k: int| 0 <= k < self.values@.len() implies has_key(bv, #[trigger] self.values@[k]) by {
                assert(has_key(bv0, self.values@[k]));
                let i = choose|i: int| 0 <= i < bv0.len() && bv0[i].0 == self.values@[k];
                assert(bv[i].0 == bv0[i].0);
            }
        }
    }
}

impl<T: Ord> SortedCounter<T> {
    /// Insert one copy of `value`, returning its new count.
    pub fn insert(&mut self, value: T) -> (res: usize)
        requires
            ordered_key::<T>(),
            old(self).wf(),
            old(self)@.count(value) < usize::MAX,
        ensures
            final(self).wf(),
            final(self)@ == old(self)@.insert(value),
            res == final(self)@.count(value),
    {
        let ghost v = value;
        let res = self.insertn(value, 1);
        proof {
            lemma_copies(v, 1);
            assert(copies(v, 1) =~= Multiset::singleton(v)) by {
                assert(copies(v, 0) =~= Multiset::empty());
            }
        }
        res
    }

    /// Insert `count` copies of `value`, returning its new count.
    pub fn insertn(&mut self, value: T, count: usize) -> (res: usize)
        requires
            ordered_key::<T>(),
            old(self).wf(),
            old(self)@.count(value) + count <= usize::MAX,
        ensures
            final(self).wf(),
            final(self)@ == old(self)@.add(copies(value, count as nat)),
            res == final(self)@.count(value),
    {
        let ghost v = value;
        let ghost m0 = self@;
        let ghost bv0 = self.by_value();
        proof {
            self.lemma_view();
            lemma_copies(v, count as nat);
            lemma_key_order::<T>();
        }
        match self.binary_search_value(&value) {
            Ok(index) => {
                let previous_count = self.value_order[index].1;
                let count = previous_count + count;
                self.set_count(index, count);
                proof {
                    lemma_sorted_distinct(bv0);
                    crate::count::model::lemma_entries_set(bv0, index as int, count);
                    assert(self@ =~= m0.add(copies(v, (count - previous_count) as nat))) by {
                        assert forall|x: T| #[trigger] self@.count(x) == m0.add(copies(v, (count - previous_count) as nat)).count(x) by {
                            if x == v {
                                vstd::multiset::lemma_update_same(m0, v, count as nat);
                            } else {
                                vstd::multiset::lemma_update_different(m0, v, count as nat, x);
                            }
                        }
                    }
                }
                count
            },
            Err(index) => {
                if count == 0 {
                    proof {
                        assert(m0.add(copies(v, 0)) =~= m0);
                        if has_key(bv0, v) {
                            let k = choose|k: int| 0 <= k < bv0.len() && bv0[k].0 == v;
                            assert(key_lt(bv0[k].0, v) || key_lt(v, bv0[k].0));
                        }
                    }
                    return 0;
                }
                self.insert_value(value, index, count);
                proof {
                    lemma_entries_insert(bv0, index as int, (v, count));
                    self.lemma_view();
                    assert(self.by_value()[index as int] == (v, count));
                }
                count
            },
        }
    }

    /// Set the count of `value` to `count`, deleting it when `count` is 0.
    ///
    /// Returns the count before the call.
    pub fn insert_to(&mut self, value: T, count: usize) -> (res: usize)
        requires
            ordered_key::<T>(),
            old(self).wf(),
        ensures
            final(self).wf(),
            final(self).listed(),
            final(self)@ == old(self)@.update(value, count as nat),
            res == old(self)@.count(value),
    {
        let ghost v = value;
        let ghost m0 = self@;
        let ghost bv0 = self.by_value();
        proof {
            self.lemma_view();
            lemma_key_order::<T>();
            lemma_copies(v, count as nat);
        }
        if count == 0 {
            let removed = self.remove_all(&value);
            proof {
                self.law_listed();
                if m0.count(v) == 0 {
                    assert(m0.update(v, 0) =~= m0) by {
                        assert forall|x: T| #[trigger] m0.update(v, 0).count(x) == m0.count(x) by {
                            if x == v {
                                vstd::multiset::lemma_update_same(m0, v, 0);
                            } else {
                                vstd::multiset::lemma_update_different(m0, v, 0, x);
                            }
                        }
                    }
                }
            }
            return match removed {
                Some(c) => c,
                None => 0,
            };
        }
        match self.binary_search_value(&value) {
            Ok(index) => {
                let previous = self.value_order[index].1;
                assert(previous == m0.count(v));
                self.set_count(index, count);
                proof {
                    lemma_sorted_distinct(bv0);
                    crate::count::model::lemma_entries_set(bv0, index as int, count);
                    self.law_listed();
                }
                previous
            },
            Err(index) => {
                proof {
                    if has_key(bv0, v) {
                        let k = choose|k: int| 0 <= k < bv0.len() && bv0[k].0 == v;
                        assert(key_lt(bv0[k].0, v) || key_lt(v, bv0[k].0));
                    }
                }
                self.insert_value(value, index, count);
                proof {
                    crate::count::model::lemma_entries_add(bv0, index as int, (v, count));
                    self.law_listed();
                }
                0
            },
        }
    }

    /// Remove one copy of `value`. Returns the remaining count when the
    /// element was present.
    pub fn remove(&mut self, value: &T) -> (res: Option<usize>)
        requires
            ordered_key::<T>(),
            old(self).wf(),
        ensures
            final(self).wf(),
            old(self)@.count(*value) == 0 ==> res is None && final(self)@ == old(self)@,
            old(self)@.count(*value) > 0 ==> res == Some(final(self)@.count(*value) as usize)
                && final(self)@ == old(self)@.remove(*value),
    {
        let res = self.removen(value, 1);
        proof {
            lemma_copies(*value, 1);
            assert(copies(*value, 1) =~= Multiset::singleton(*value)) by {
                assert(copies(*value, 0) =~= Multiset::empty());
            }
        }
        res
    }

    /// Remove `count` copies of `value`, deleting it when none is left.
    /// Returns the remaining count when the element was present.
    pub fn removen(&mut self, value: &T, count: usize) -> (res: Option<usize>)
        requires
            ordered_key::<T>(),
            old(self).wf(),
        ensures
            final(self).wf(),
            old(self)@.count(*value) == 0 ==> res is None && final(self)@ == old(self)@,
            old(self)@.count(*value) > 0 ==> res == Some(final(self)@.count(*value) as usize)
                && final(self)@ == old(self)@.sub(copies(*value, count as nat)),
    {
        let ghost v = *value;
        let ghost m0 = self@;
        let ghost bv0 = self.by_value();
        proof {
            self.lemma_view();
            lemma_key_order::<T>();
            lemma_copies(v, count as nat);
        }
        let index = match self.binary_search_value(value) {
            Ok(index) => index,
            Err(_) => {
                proof {
                    if has_key(bv0, v) {
                        let k = choose|k: int| 0 <= k < bv0.len() && bv0[k].0 == v;
                        assert(key_lt(bv0[k].0, v) || key_lt(v, bv0[k].0));
                    }
                }
                return None;
            },
        };
        let previous_count = self.value_order[index].1;
        if previous_count <= count {
            self.remove_value(index);
            proof {
                lemma_sorted_distinct(bv0);
                crate::count::model::lemma_entries_drop(bv0, index as int);
                assert forall|x: T| #[trigger] self@.count(x) == m0.sub(copies(v, count as nat)).count(x) by {
                    if x == v {
                        vstd::multiset::lemma_update_same(m0, v, 0);
                    } else {
                        vstd::multiset::lemma_update_different(m0, v, 0, x);
                    }
                }
                assert(self@ =~= m0.sub(copies(v, count as nat)));
            }
            Some(0)
        } else {
            let remaining = previous_count - count;
            self.set_count(index, remaining);
            proof {
                lemma_sorted_distinct(bv0);
                crate::count::model::lemma_entries_set(bv0, index as int, remaining);
                assert forall|x: T| #[trigger] self@.count(x) == m0.sub(copies(v, count as nat)).count(x) by {
                    if x == v {
                        vstd::multiset::lemma_update_same(m0, v, remaining as nat);
                    } else {
                        vstd::multiset::lemma_update_different(m0, v, remaining as nat, x);
                    }
                }
                assert(self@ =~= m0.sub(copies(v, count as nat)));
            }
            Some(remaining)
        }
    }

    /// Delete `value`, returning its count when it was present.
    pub fn remove_all(&mut self, value: &T) -> (res: Option<usize>)
        requires
            ordered_key::<T>(),
            old(self).wf(),
        ensures
            final(self).wf(),
            old(self)@.count(*value) == 0 ==> res is None && final(self)@ == old(self)@,
            old(self)@.count(*value) > 0 ==> res == Some(old(self)@.count(*value) as usize)
                && final(self)@ == old(self)@.update(*value, 0),
    {
        let ghost v = *value;
        let ghost m0 = self@;
        let ghost bv0 = self.by_value();
        proof {
            self.lemma_view();
            lemma_key_order::<T>();
        }
        let index = match self.binary_search_value(value) {
            Ok(index) => index,
            Err(_) => {
                proof {
                    if has_key(bv0, v) {
                        let k = choose|k: int| 0 <= k < bv0.len() && bv0[k].0 == v;
                        assert(key_lt(bv0[k].0, v) || key_lt(v, bv0[k].0));
                    }
                }
                return None;
            },
        };
        let count = self.remove_value(index);
        proof {
            lemma_sorted_distinct(bv0);
            crate::count::model::lemma_entries_drop(bv0, index as int);
        }
        Some(count)
    }
}

impl<T: Ord> SortedCounter<T> {
    /// The distinct elements, in no particular order.
    pub fn iter(&self) -> (res: Vec<&T>)
        requires
            ordered_key::<T>(),
            self.wf(),
        ensures
            res@.len() == self@.dom().len(),
            forall|i: int| 0 <= i < res@.len() ==> self@.count(*#[trigger] res@[i]) > 0,
            forall|i: int, j: int| 0 <= i < j < res@.len() ==> *res@[i] != *res@[j],
            forall|x: T| #[trigger] self@.count(x) > 0 ==> exists|i: int| 0 <= i < res@.len() && *res@[i] == x,
    {
        proof {
            self.lemma_view();
        }
        let mut res: Vec<&T> = Vec::new();
        let mut i: usize = 0;
        while i < self.values.len()
            invariant
                i <= self.values@.len(),
                res@.len() == i,
                forall|k: int| 0 <= k < i ==> *#[trigger] res@[k] == self.values@[k],
            decreases self.values@.len() - i,
        {
            res.push(&self.values[i]);
            i = i + 1;
        }
        proof {
            assert forall|a: int, b: int| 0 <= a < b < res@.len() implies *res@[a] != *res@[b] by {
                assert(self.values@[a] != self.values@[b]);
            }
            assert forall|a: int| 0 <= a < res@.len() implies self@.count(*#[trigger] res@[a]) > 0 by {
                assert(self@.count(self.values@[a]) > 0);
            }
            assert forall|x: T| #[trigger] self@.count(x) > 0 implies exists|i: int| 0 <= i < res@.len() && *res@[i] == x by {
                let bv = self.by_value();
                assert(has_key(bv, x));
                let i = choose|i: int| 0 <= i < bv.len() && bv[i].0 == x;
                let k = self.value_order@[i].0 as int;
                assert(0 <= k < res@.len());
                assert(*res@[k] == x);
            }
        }
        res
    }

    /// The distinct elements with their counts, in increasing element order.
    pub fn iter_by_value(&self) -> (res: Vec<(&T, usize)>)
        requires
            ordered_key::<T>(),
            self.wf(),
        ensures
            res@.len() == self@.dom().len(),
            forall|i: int| 0 <= i < res@.len() ==> self@.count(*#[trigger] res@[i].0) == res@[i].1 as nat,
            forall|i: int| 0 <= i < res@.len() ==> #[trigger] res@[i].1 > 0,
            forall|i: int, j: int| 0 <= i < j < res@.len() ==> key_lt(*res@[i].0, *res@[j].0),
            res@.len() == self.by_value().len(),
            forall|i: int| 0 <= i < res@.len() ==> (*#[trigger] res@[i].0, res@[i].1) == self.by_value()[i],
    {
        proof {
            self.lemma_view();
        }
        let ghost bv = self.by_value();
        let mut res: Vec<(&T, usize)> = Vec::new();
        let mut i: usize = 0;
        while i < self.value_order.len()
            invariant
                self.wf(),
                bv == self.by_value(),
                i <= bv.len(),
                bv.len() == self.value_order@.len(),
                res@.len() == i,
                forall|k: int| 0 <= k < i ==> (*#[trigger] res@[k].0, res@[k].1) == bv[k],
            decreases bv.len() - i,
        {
            let (index, count) = self.value_order[i];
            assert(self.value_order@[i as int].0 < self.values@.len());
            res.push((&self.values[index], count));
            i = i + 1;
        }
        proof {
            assert forall|a: int| 0 <= a < res@.len() implies self@.count(*#[trigger] res@[a].0) == res@[a].1 as nat by {
                assert(self@.count(bv[a].0) == bv[a].1);
            }
            assert forall|a: int| 0 <= a < res@.len() implies #[trigger] res@[a].1 > 0 by {
                assert((*res@[a].0, res@[a].1) == bv[a]);
                assert(self@.count(bv[a].0) == bv[a].1);
            }
            assert forall|a: int, b: int| 0 <= a < b < res@.len() implies key_lt(*res@[a].0, *res@[b].0) by {
                assert((*res@[a].0, res@[a].1) == bv[a]);
                assert((*res@[b].0, res@[b].1) == bv[b]);
            }
        }
        res
    }

    /// The distinct elements with their counts, in decreasing count order;
    /// equal counts come in increasing element order.
    pub fn iter_by_count(&self) -> (res: Vec<(&T, usize)>)
        requires
            ordered_key::<T>(),
            self.wf(),
        ensures
            res@.len() == self@.dom().len(),
            forall|i: int| 0 <= i < res@.len() ==> self@.count(*#[trigger] res@[i].0) == res@[i].1 as nat,
            forall|i: int| 0 <= i < res@.len() ==> #[trigger] res@[i].1 > 0,
            forall|i: int, j: int|
                0 <= i < j < res@.len() ==> count_before((*res@[i].0, res@[i].1), (*res@[j].0, res@[j].1)),
            res@.len() == self.by_count().len(),
            forall|i: int| 0 <= i < res@.len() ==> (*#[trigger] res@[i].0, res@[i].1) == self.by_count()[i],
    {
        proof {
            self.lemma_view();
        }
        let ghost bc = self.by_count();
        let mut res: Vec<(&T, usize)> = Vec::new();
        let mut i: usize = 0;
        while i < self.count_order.len()
            invariant
                self.wf(),
                bc == self.by_count(),
                i <= bc.len(),
                bc.len() == self.count_order@.len(),
                res@.len() == i,
                forall|k: int| 0 <= k < i ==> (*#[trigger] res@[k].0, res@[k].1) == bc[k],
            decreases bc.len() - i,
        {
            let (index, count) = self.count_order[i];
            assert(self.count_order@[i as int].0 < self.values@.len());
            res.push((&self.values[index], count));
            i = i + 1;
        }
        proof {
            assert forall|a: int| 0 <= a < res@.len() implies self@.count(*#[trigger] res@[a].0) == res@[a].1 as nat by {
                assert(self@.count(bc[a].0) == bc[a].1);
            }
            assert forall|a: int| 0 <= a < res@.len() implies #[trigger] res@[a].1 > 0 by {
                assert((*res@[a].0, res@[a].1) == bc[a]);
                assert(self@.count(bc[a].0) == bc[a].1);
            }
            assert forall|a: int, b: int| 0 <= a < b < res@.len() implies count_before((*res@[a].0, res@[a].1), (*res@[b].0, res@[b].1)) by {
                assert((*res@[a].0, res@[a].1) == bc[a]);
                assert((*res@[b].0, res@[b].1) == bc[b]);
            }
        }
        res
    }

    /// The distinct elements, in no particular order.
    pub fn into_vec(self) -> (res: Vec<T>)
        requires
            ordered_key::<T>(),
            self.wf(),
        ensures
            res@.len() == self@.dom().len(),
            forall|i: int| 0 <= i < res@.len() ==> self@.count(#[trigger] res@[i]) > 0,
            forall|i: int, j: int| 0 <= i < j < res@.len() ==> res@[i] != res@[j],
    {
        proof {
            self.lemma_view();
            assert forall|a: int, b: int| 0 <= a < b < self.values@.len() implies self.values@[a] != self.values@[b] by {
            }
        }
        self.values
    }
}

impl<T: Ord> Default for SortedCounter<T> {
    /// An empty counter.
    fn default() -> (res: Self)
        ensures
            res.wf(),
            res@ == Multiset::<T>::empty(),
    {
        Self::new()
    }
}

} // verus!
