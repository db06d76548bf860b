//! Mathematical model shared by the counters: a counter is a multiset.

use vstd::prelude::*;
use vstd::multiset::Multiset;

verus! {

broadcast use vstd::multiset::group_multiset_axioms;

/// The multiset holding exactly `n` copies of `v`.
pub open spec fn copies<T>(v: T, n: nat) -> Multiset<T>
    decreases n,
{
    if n == 0 {
        Multiset::empty()
    } else {
        copies(v, (n - 1) as nat).insert(v)
    }
}

/// `copies(v, n)` holds `n` copies of `v` and nothing else.
pub broadcast proof fn lemma_copies<T>(v: T, n: nat)
    ensures
        #[trigger] copies(v, n).count(v) == n,
        copies(v, n).len() == n,
        forall|w: T| w != v ==> copies(v, n).count(w) == 0,
    decreases n,
{
    if n > 0 {
        lemma_copies(v, (n - 1) as nat);
    }
}

/// The multiset described by a sequence of `(element, count)` entries.
pub open spec fn entries_multiset<T>(s: Seq<(T, usize)>) -> Multiset<T>
    decreases s.len(),
{
    if s.len() == 0 {
        Multiset::empty()
    } else {
        entries_multiset(s.drop_last()).add(copies(s.last().0, s.last().1 as nat))
    }
}

/// Sum of the counts of a sequence of entries.
pub open spec fn entries_total<T>(s: Seq<(T, usize)>) -> nat
    decreases s.len(),
{
    if s.len() == 0 {
        0
    } else {
        entries_total(s.drop_last()) + s.last().1 as nat
    }
}

/// No element occurs in two entries.
pub open spec fn distinct_keys<T>(s: Seq<(T, usize)>) -> bool {
    forall|i: int, j: int| 0 <= i < j < s.len() ==> s[i].0 != s[j].0
}

/// Some entry is about `v`.
pub open spec fn has_key<T>(s: Seq<(T, usize)>, v: T) -> bool {
    exists|i: int| 0 <= i < s.len() && s[i].0 == v
}

/// How often `v` occurs according to a sequence of entries with distinct keys.
pub proof fn lemma_entries_count<T>(s: Seq<(T, usize)>, v: T)
    ensures
        !has_key(s, v) ==> entries_multiset(s).count(v) == 0,
        forall|i: int|
            #![trigger s[i]]
            0 <= i < s.len() && s[i].0 == v && distinct_keys(s) ==> entries_multiset(s).count(v)
                == s[i].1,
    decreases s.len(),
{
    if s.len() > 0 {
        let t = s.drop_last();
        let last = s.last();
        lemma_entries_count(t, v);
        lemma_copies(last.0, last.1 as nat);
        if !has_key(s, v) {
            if has_key(t, v) {
                let i = choose|i: int| 0 <= i < t.len() && t[i].0 == v;
                assert(s[i].0 == v);
            }
            assert(last.0 != v) by {
                if last.0 == v {
                    assert(s[s.len() - 1].0 == v);
                }
            }
        }
        assert forall|i: int|
            #![trigger s[i]]
            0 <= i < s.len() && s[i].0 == v && distinct_keys(s) implies entries_multiset(s).count(v)
            == s[i].1 by {
            if i == s.len() - 1 {
                if has_key(t, v) {
                    let k = choose|k: int| 0 <= k < t.len() && t[k].0 == v;
                    assert(s[k].0 == v);
                }
            } else {
                assert(t[i] == s[i]);
                assert(last.0 != v) by {
                    assert(s[s.len() - 1].0 == last.0);
                }
                assert(distinct_keys(t)) by {
                    assert forall|a: int, b: int| 0 <= a < b < t.len() implies t[a].0 != t[b].0 by {
                        assert(s[a] == t[a] && s[b] == t[b]);
                    }
                }
            }
        }
    }
}

/// Total number of elements described by a sequence of entries.
pub proof fn lemma_entries_len<T>(s: Seq<(T, usize)>)
    ensures
        entries_multiset(s).len() == entries_total(s),
    decreases s.len(),
{
    if s.len() > 0 {
        lemma_entries_len(s.drop_last());
        lemma_copies(s.last().0, s.last().1 as nat);
    }
}

/// Elements with a positive count are exactly the keys of the entries.
pub proof fn lemma_entries_dom<T>(s: Seq<(T, usize)>)
    requires
        distinct_keys(s),
        forall|i: int| 0 <= i < s.len() ==> #[trigger] s[i].1 > 0,
    ensures
        entries_multiset(s).dom() == s.map_values(|e: (T, usize)| e.0).to_set(),
        entries_multiset(s).dom().len() == s.len(),
{
    let keys = s.map_values(|e: (T, usize)| e.0);
    assert forall|v: T| #[trigger] entries_multiset(s).dom().contains(v) == keys.to_set().contains(v) by {
        lemma_entries_count(s, v);
        if keys.contains(v) {
            let i = choose|i: int| 0 <= i < keys.len() && keys[i] == v;
            assert(s[i].0 == v);
        }
        if has_key(s, v) {
            let i = choose|i: int| 0 <= i < s.len() && s[i].0 == v;
            assert(keys[i] == v);
        }
    }
    assert(entries_multiset(s).dom() =~= keys.to_set());
    assert(keys.no_duplicates()) by {
        assert forall|i: int, j: int| 0 <= i < keys.len() && 0 <= j < keys.len() && i != j
            implies keys[i] != keys[j] by {
            if i < j {
                assert(s[i].0 != s[j].0);
            } else {
                assert(s[j].0 != s[i].0);
            }
        }
    }
    keys.unique_seq_to_set();
}

/// Entries of a concatenation describe the sum of both multisets.
pub proof fn lemma_entries_concat<T>(a: Seq<(T, usize)>, b: Seq<(T, usize)>)
    ensures
        entries_multiset(a + b) =~= entries_multiset(a).add(entries_multiset(b)),
    decreases b.len(),
{
    if b.len() == 0 {
        assert(a + b =~= a);
    } else {
        lemma_entries_concat(a, b.drop_last());
        assert((a + b).drop_last() =~= a + b.drop_last());
        assert((a + b).last() == b.last());
    }
}

/// Inserting an entry adds its copies to the multiset.
pub proof fn lemma_entries_insert<T>(s: Seq<(T, usize)>, p: int, x: (T, usize))
    requires
        0 <= p <= s.len(),
    ensures
        entries_multiset(s.insert(p, x)) =~= entries_multiset(s).add(copies(x.0, x.1 as nat)),
{
    let a = s.take(p);
    let b = s.skip(p);
    assert(s =~= a + b);
    assert(s.insert(p, x) =~= (a + seq![x]) + b);
    lemma_entries_concat(a, b);
    lemma_entries_concat(a + seq![x], b);
    lemma_entries_concat(a, seq![x]);
    assert(seq![x].drop_last() =~= Seq::<(T, usize)>::empty());
    assert(entries_multiset(seq![x]) =~= copies(x.0, x.1 as nat)) by {
        assert(entries_multiset(seq![x].drop_last()) =~= Multiset::empty());
    }
    let ms_a = entries_multiset(a);
    let ms_b = entries_multiset(b);
    let c = copies(x.0, x.1 as nat);
    assert(entries_multiset(s.insert(p, x)) =~= ms_a.add(c).add(ms_b));
    assert(ms_a.add(c).add(ms_b) =~= ms_a.add(ms_b).add(c));
}

/// Removing an entry takes its copies out of the multiset.
pub proof fn lemma_entries_remove<T>(s: Seq<(T, usize)>, p: int)
    requires
        0 <= p < s.len(),
    ensures
        entries_multiset(s) =~= entries_multiset(s.remove(p)).add(copies(s[p].0, s[p].1 as nat)),
{
    assert(s.remove(p).insert(p, s[p]) =~= s);
    lemma_entries_insert(s.remove(p), p, s[p]);
}

/// Replacing an entry swaps its copies for the new ones.
pub proof fn lemma_entries_update<T>(s: Seq<(T, usize)>, p: int, x: (T, usize))
    requires
        0 <= p < s.len(),
    ensures
        entries_multiset(s.update(p, x)).add(copies(s[p].0, s[p].1 as nat)) =~= entries_multiset(
            s,
        ).add(copies(x.0, x.1 as nat)),
{
    assert(s.remove(p).insert(p, x) =~= s.update(p, x));
    lemma_entries_insert(s.remove(p), p, x);
    lemma_entries_remove(s, p);
}

/// Setting the count of an entry sets the count of its element.
pub proof fn lemma_entries_set<T>(s: Seq<(T, usize)>, p: int, c: usize)
    requires
        0 <= p < s.len(),
        distinct_keys(s),
    ensures
        entries_multiset(s.update(p, (s[p].0, c))) =~= entries_multiset(s).update(s[p].0, c as nat),
{
    let k = s[p].0;
    let s2 = s.update(p, (k, c));
    lemma_entries_update(s, p, (k, c));
    lemma_entries_count(s, k);
    lemma_copies(k, s[p].1 as nat);
    lemma_copies(k, c as nat);
    assert forall|x: T| #[trigger] entries_multiset(s2).count(x) == entries_multiset(s).update(k, c as nat).count(x) by {
        assert(entries_multiset(s2).add(copies(k, s[p].1 as nat)).count(x) == entries_multiset(s).add(
            copies(k, c as nat),
        ).count(x));
        if x == k {
            vstd::multiset::lemma_update_same(entries_multiset(s), k, c as nat);
        } else {
            vstd::multiset::lemma_update_different(entries_multiset(s), k, c as nat, x);
        }
    }
}

/// Dropping an entry sets the count of its element to zero.
pub proof fn lemma_entries_drop<T>(s: Seq<(T, usize)>, p: int)
    requires
        0 <= p < s.len(),
        distinct_keys(s),
    ensures
        entries_multiset(s.remove(p)) =~= entries_multiset(s).update(s[p].0, 0),
{
    let k = s[p].0;
    lemma_entries_remove(s, p);
    lemma_entries_count(s, k);
    lemma_copies(k, s[p].1 as nat);
    assert forall|x: T| #[trigger] entries_multiset(s.remove(p)).count(x) == entries_multiset(s).update(k, 0).count(x) by {
        assert(entries_multiset(s).count(x) == entries_multiset(s.remove(p)).add(copies(k, s[p].1 as nat)).count(x));
        if x == k {
            vstd::multiset::lemma_update_same(entries_multiset(s), k, 0);
        } else {
            vstd::multiset::lemma_update_different(entries_multiset(s), k, 0, x);
        }
    }
}

/// Adding an entry for a new element sets its count.
pub proof fn lemma_entries_add<T>(s: Seq<(T, usize)>, p: int, x: (T, usize))
    requires
        0 <= p <= s.len(),
        !has_key(s, x.0),
    ensures
        entries_multiset(s.insert(p, x)) =~= entries_multiset(s).update(x.0, x.1 as nat),
{
    let k = x.0;
    lemma_entries_insert(s, p, x);
    lemma_entries_count(s, k);
    lemma_copies(k, x.1 as nat);
    assert forall|y: T| #[trigger] entries_multiset(s.insert(p, x)).count(y) == entries_multiset(s).update(k, x.1 as nat).count(y) by {
        if y == k {
            vstd::multiset::lemma_update_same(entries_multiset(s), k, x.1 as nat);
        } else {
            vstd::multiset::lemma_update_different(entries_multiset(s), k, x.1 as nat, y);
        }
    }
}

/// The multiset whose counts a map gives.
pub open spec fn map_multiset<T>(m: Map<T, usize>) -> Multiset<T> {
    Multiset::from_map(m.map_values(|c: usize| c as nat))
}

/// Counts of a map's multiset.
pub proof fn lemma_map_multiset<T>(m: Map<T, usize>)
    requires
        m.dom().finite(),
    ensures
        forall|v: T| #[trigger] map_multiset(m).count(v) == if m.contains_key(v) { m[v] as nat } else { 0 },
{
    let mm = m.map_values(|c: usize| c as nat);
    assert(mm.dom() =~= m.dom());
    assert forall|v: T| #[trigger] map_multiset(m).count(v) == if m.contains_key(v) { m[v] as nat } else { 0 } by {
        if m.contains_key(v) {
            assert(mm.dom().contains(v));
        }
    }
}

/// With positive counts, a map's multiset has exactly the map's keys.
pub proof fn lemma_map_multiset_dom<T>(m: Map<T, usize>)
    requires
        m.dom().finite(),
        forall|v: T| m.contains_key(v) ==> #[trigger] m[v] > 0,
    ensures
        map_multiset(m).dom() == m.dom(),
{
    lemma_map_multiset(m);
    assert(map_multiset(m).dom() =~= m.dom());
}

/// Entries that list a map's pairs once each describe the map's multiset.
pub proof fn lemma_entries_of_map<T>(s: Seq<(T, usize)>, m: Map<T, usize>)
    requires
        m.dom().finite(),
        forall|i: int| 0 <= i < s.len() ==> m.contains_key(#[trigger] s[i].0) && m[s[i].0] == s[i].1,
        forall|v: T| m.contains_key(v) ==> #[trigger] has_key(s, v),
        distinct_keys(s),
    ensures
        entries_multiset(s) == map_multiset(m),
{
    lemma_map_multiset(m);
    assert forall|v: T| #[trigger] entries_multiset(s).count(v) == map_multiset(m).count(v) by {
        lemma_entries_count(s, v);
        if has_key(s, v) {
            let i = choose|i: int| 0 <= i < s.len() && s[i].0 == v;
            assert(s[i].0 == v);
        }
    }
    assert(entries_multiset(s) =~= map_multiset(m));
}

/// A prefix counts no more than the whole sequence.
pub proof fn lemma_total_prefix_le<T>(s: Seq<(T, usize)>, i: int)
    requires
        0 <= i <= s.len(),
    ensures
        entries_total(s.take(i)) <= entries_total(s),
    decreases s.len(),
{
    if i < s.len() {
        assert(s.drop_last().take(i) =~= s.take(i));
        lemma_total_prefix_le(s.drop_last(), i);
    } else {
        assert(s.take(i) =~= s);
    }
}

/// Running sum of the counts of a prefix.
pub proof fn lemma_total_prefix<T>(s: Seq<(T, usize)>, i: int)
    requires
        0 < i <= s.len(),
    ensures
        entries_total(s.take(i)) == entries_total(s.take(i - 1)) + s[i - 1].1,
{
    assert(s.take(i).drop_last() =~= s.take(i - 1));
}

} // verus!
