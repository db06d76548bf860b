//! Laws that every counter keeps, stated over the multiset that the
//! counters' contracts use as their view.

use vstd::prelude::*;
use vstd::multiset::Multiset;
use crate::count::model::{copies, lemma_copies};

verus! {

broadcast use {vstd::multiset::group_multiset_axioms, vstd::multiset::group_multiset_properties};

/// Removing `n` copies of a value right after inserting `n` copies gives
/// back the counter as it was (`insertn` then `removen`).
pub proof fn law_insertn_then_removen<T>(m: Multiset<T>, v: T, n: nat)
    ensures
        m.add(copies(v, n)).sub(copies(v, n)) == m,
{
    lemma_copies(v, n);
    assert(m.add(copies(v, n)).sub(copies(v, n)) =~= m);
}

/// After `insert_to(v, c)` the count of `v` is `c`; no other count moves.
pub proof fn law_insert_to_then_get<T>(m: Multiset<T>, v: T, c: nat, w: T)
    ensures
        m.update(v, c).count(v) == c,
        w != v ==> m.update(v, c).count(w) == m.count(w),
{
}

/// Removing at least as many copies as a value has deletes it; no other
/// count moves (`removen` past zero, `remove_all`).
pub proof fn law_removen_past_zero<T>(m: Multiset<T>, v: T, n: nat, w: T)
    requires
        n >= m.count(v),
    ensures
        m.sub(copies(v, n)).count(v) == 0,
        m.sub(copies(v, n)) == m.update(v, 0),
        w != v ==> m.sub(copies(v, n)).count(w) == m.count(w),
{
    lemma_copies(v, n);
    assert(m.sub(copies(v, n)) =~= m.update(v, 0));
}

/// Each insertion adds one to the total and each removal of a present
/// value takes one away (`len_count` follows `insert` and `remove`).
pub proof fn law_total_follows_insert_remove<T>(m: Multiset<T>, v: T)
    ensures
        m.insert(v).len() == m.len() + 1,
        m.count(v) > 0 ==> m.remove(v).len() == m.len() - 1,
{
}

} // verus!
