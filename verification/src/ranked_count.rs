//! Ranked counter: a counter that lists its elements by value or by count.
//!
//! It shares its representation with [`SortedCounter`]: sorted index
//! arrays for the element order and for the count order.

use vstd::prelude::*;
use vstd::multiset::Multiset;
use crate::key::{ordered_key, key_lt};
use crate::count::model::copies;
use crate::count::sort::{SortedCounter, count_before};

verus! {

/// Counter ranked by element and by count.
#[derive(Clone, PartialEq, Eq, PartialOrd, Ord, Hash, Debug)]
pub struct Counter<T: Ord>(SortedCounter<T>);

impl<T: Ord> View for Counter<T> {
    type V = Multiset<T>;

    /// The counter as a multiset of its elements.
    closed spec fn view(&self) -> Multiset<T> {
        self.0@
    }
}

impl<T: Ord> Counter<T> {
    /// Internal consistency.
    pub closed spec fn wf(&self) -> bool {
        self.0.wf()
    }

    /// An empty counter.
    pub fn new() -> (res: Self)
        ensures
            res.wf(),
            res@ == Multiset::<T>::empty(),
    {
        Counter(SortedCounter::new())
    }

    /// An empty counter with room for `capacity` distinct elements.
    pub fn with_capacity(capacity: usize) -> (res: Self)
        ensures
            res.wf(),
            res@ == Multiset::<T>::empty(),
    {
        Counter(SortedCounter::with_capacity(capacity))
    }

    /// Whether the counter holds no element.
    pub fn is_empty(&self) -> (res: bool)
        requires
            ordered_key::<T>(),
            self.wf(),
        ensures
            res == (self@.len() == 0),
    {
        self.0.is_empty()
    }

    /// Number of distinct elements.
    pub fn len(&self) -> (res: usize)
        requires
            ordered_key::<T>(),
            self.wf(),
        ensures
            res == self@.dom().len(),
    {
        self.0.len()
    }

    /// Number of elements, repetitions included.
    pub fn len_count(&mut self) -> (res: usize)
        requires
            old(self).wf(),
            old(self)@.len() <= usize::MAX,
        ensures
            *final(self) == *old(self),
            res == old(self)@.len(),
    {
        self.0.len_count()
    }

    /// Remove every element.
    pub fn clear(&mut self)
        ensures
            final(self).wf(),
            final(self)@ == Multiset::<T>::empty(),
    {
        self.0.clear()
    }

    /// Reserve room for `additional` more distinct elements.
    pub fn reserve(&mut self, additional: usize)
        requires
            old(self).wf(),
        ensures
            final(self).wf(),
            final(self)@ == old(self)@,
    {
        self.0.reserve(additional)
    }

    /// Release spare capacity.
    pub fn shrink_to_fit(&mut self)
        requires
            old(self).wf(),
        ensures
            final(self).wf(),
            final(self)@ == old(self)@,
    {
        self.0.shrink_to_fit()
    }

    /// Whether `value` is counted.
    pub fn contains(&self, value: &T) -> (res: bool)
        requires
            ordered_key::<T>(),
            self.wf(),
        ensures
            res == (self@.count(*value) > 0),
    {
        self.0.contains(value)
    }

    /// Count of `value`.
    pub fn get(&self, value: &T) -> (res: usize)
        requires
            ordered_key::<T>(),
            self.wf(),
        ensures
            res == self@.count(*value),
    {
        self.0.get(value)
    }

    /// Insert one copy of `value`, returning its new count.
    pub fn insert(&mut self, value: T) -> (res: usize)
        requires
            ordered_key::<T>(),
            old(self).wf(),
            old(self)@.count(value) < usize::MAX,
        ensures
            final(self).wf(),
            final(self)@ == old(self)@.insert(value),
            res == final(self)@.count(value),
    {
        self.0.insert(value)
    }

    /// Insert `count` copies of `value`, returning its new count.
    pub fn insertn(&mut self, value: T, count: usize) -> (res: usize)
        requires
            ordered_key::<T>(),
            old(self).wf(),
            old(self)@.count(value) + count <= usize::MAX,
        ensures
            final(self).wf(),
            final(self)@ == old(self)@.add(copies(value, count as nat)),
            res == final(self)@.count(value),
    {
        self.0.insertn(value, count)
    }

    /// Set the count of `value` to `count`, deleting it when `count` is 0.
    ///
    /// Returns the count before the call.
    pub fn insert_to(&mut self, value: T, count: usize) -> (res: usize)
        requires
            ordered_key::<T>(),
            old(self).wf(),
        ensures
            final(self).wf(),
            final(self)@ == old(self)@.update(value, count as nat),
            res == old(self)@.count(value),
    {
        self.0.insert_to(value, count)
    }

    /// Remove one copy of `value`. Returns the remaining count when the
    /// element was present.
    pub fn remove(&mut self, value: &T) -> (res: Option<usize>)
        requires
            ordered_key::<T>(),
            old(self).wf(),
        ensures
            final(self).wf(),
            old(self)@.count(*value) == 0 ==> res is None && final(self)@ == old(self)@,
            old(self)@.count(*value) > 0 ==> res == Some(final(self)@.count(*value) as usize)
                && final(self)@ == old(self)@.remove(*value),
    {
        self.0.remove(value)
    }

    /// Remove `count` copies of `value`, deleting it when none is left.
    /// Returns the remaining count when the element was present.
    pub fn removen(&mut self, value: &T, count: usize) -> (res: Option<usize>)
        requires
            ordered_key::<T>(),
            old(self).wf(),
        ensures
            final(self).wf(),
            old(self)@.count(*value) == 0 ==> res is None && final(self)@ == old(self)@,
            old(self)@.count(*value) > 0 ==> res == Some(final(self)@.count(*value) as usize)
                && final(self)@ == old(self)@.sub(copies(*value, count as nat)),
    {
        self.0.removen(value, count)
    }

    /// Delete `value`, returning its count when it was present.
    pub fn remove_all(&mut self, value: &T) -> (res: Option<usize>)
        requires
            ordered_key::<T>(),
            old(self).wf(),
        ensures
            final(self).wf(),
            old(self)@.count(*value) == 0 ==> res is None && final(self)@ == old(self)@,
            old(self)@.count(*value) > 0 ==> res == Some(old(self)@.count(*value) as usize)
                && final(self)@ == old(self)@.update(*value, 0),
    {
        self.0.remove_all(value)
    }

    /// The distinct elements, in no particular order.
    pub fn iter(&self) -> (res: Vec<&T>)
        requires
            ordered_key::<T>(),
            self.wf(),
        ensures
            res@.len() == self@.dom().len(),
            forall|i: int| 0 <= i < res@.len() ==> self@.count(*#[trigger] res@[i]) > 0,
            forall|i: int, j: int| 0 <= i < j < res@.len() ==> *res@[i] != *res@[j],
    {
        self.0.iter()
    }

    /// The distinct elements with their counts, in increasing element order.
    pub fn iter_by_value(&self) -> (res: Vec<(&T, usize)>)
        requires
            ordered_key::<T>(),
            self.wf(),
        ensures
            res@.len() == self@.dom().len(),
            forall|i: int| 0 <= i < res@.len() ==> self@.count(*#[trigger] res@[i].0) == res@[i].1 as nat,
            forall|i: int| 0 <= i < res@.len() ==> #[trigger] res@[i].1 > 0,
            forall|i: int, j: int| 0 <= i < j < res@.len() ==> key_lt(*res@[i].0, *res@[j].0),
    {
        self.0.iter_by_value()
    }

    /// The distinct elements with their counts, in decreasing count order;
    /// equal counts come in increasing element order.
    pub fn iter_by_count(&self) -> (res: Vec<(&T, usize)>)
        requires
            ordered_key::<T>(),
            self.wf(),
        ensures
            res@.len() == self@.dom().len(),
            forall|i: int| 0 <= i < res@.len() ==> self@.count(*#[trigger] res@[i].0) == res@[i].1 as nat,
            forall|i: int| 0 <= i < res@.len() ==> #[trigger] res@[i].1 > 0,
            forall|i: int, j: int|
                0 <= i < j < res@.len() ==> count_before((*res@[i].0, res@[i].1), (*res@[j].0, res@[j].1)),
    {
        self.0.iter_by_count()
    }

    /// The distinct elements, in no particular order.
    pub fn into_vec(self) -> (res: Vec<T>)
        requires
            ordered_key::<T>(),
            self.wf(),
        ensures
            res@.len() == self@.dom().len(),
            forall|i: int| 0 <= i < res@.len() ==> self@.count(#[trigger] res@[i]) > 0,
            forall|i: int, j: int| 0 <= i < j < res@.len() ==> res@[i] != res@[j],
    {
        self.0.into_vec()
    }
}

impl<T: Ord> Default for Counter<T> {
    /// An empty counter.
    fn default() -> (res: Self)
        ensures
            res.wf(),
            res@ == Multiset::<T>::empty(),
    {
        Self::new()
    }
}

} // verus!
