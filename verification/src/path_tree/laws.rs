//! Laws of path trees, stated over the map views that the folder
//! operations' contracts use.

use vstd::prelude::*;
use crate::path_tree::folder::{NodeView, view_at, put, take, chain, planted_all, lookup};
use crate::path_tree::util::{pieces, plain_path};

verus! {

/// No proper prefix of `path` ends at an item of `m`: an insertion at
/// `path` reaches its end.
pub open spec fn reaches<T>(m: Map<Seq<char>, NodeView<T>>, path: Seq<Seq<char>>) -> bool
    decreases path.len(),
{
    if path.len() <= 1 || !m.contains_key(path[0]) {
        true
    } else {
        match m[path[0]] {
            NodeView::Folder(sub) => reaches(sub, path.drop_first()),
            NodeView::Item(_) => false,
        }
    }
}

/// A chain of folders holds its node at the end of its names, and taking
/// that node away empties the chain.
proof fn lemma_chain<T>(names: Seq<Seq<char>>, v: NodeView<T>)
    requires
        names.len() > 0,
    ensures
        chain(names, v) matches NodeView::Folder(sub) && view_at(sub, names) == Some(v) && take(
            sub,
            names,
        ).dom().len() == 0,
    decreases names.len(),
{
    let sub = Map::<Seq<char>, NodeView<T>>::empty().insert(names[0], chain(names.drop_first(), v));
    if names.len() > 1 {
        lemma_chain(names.drop_first(), v);
    }
    assert(take(sub, names) =~= Map::<Seq<char>, NodeView<T>>::empty());
}

/// After an insertion that reaches the end of its path, the path holds the
/// inserted node.
pub proof fn law_get_after_insert<T>(m: Map<Seq<char>, NodeView<T>>, path: Seq<Seq<char>>, v: NodeView<T>)
    requires
        path.len() > 0,
        reaches(m, path),
    ensures
        view_at(put(m, path, v), path) == Some(v),
    decreases path.len(),
{
    if path.len() > 1 {
        if m.contains_key(path[0]) {
            match m[path[0]] {
                NodeView::Folder(sub) => {
                    law_get_after_insert(sub, path.drop_first(), v);
                },
                NodeView::Item(_) => {},
            }
        } else {
            lemma_chain(path.drop_first(), v);
        }
    }
}

/// After a removal nothing is at the path.
pub proof fn law_get_after_remove<T>(m: Map<Seq<char>, NodeView<T>>, path: Seq<Seq<char>>)
    ensures
        view_at(take(m, path), path) is None,
    decreases path.len(),
{
    if path.len() > 1 && m.contains_key(path[0]) {
        match m[path[0]] {
            NodeView::Folder(sub) => {
                law_get_after_remove(sub, path.drop_first());
            },
            NodeView::Item(_) => {},
        }
    }
}

/// Inserting and removing at a path leave every path that starts with
/// another name as it was.
pub proof fn law_other_names_unchanged<T>(
    m: Map<Seq<char>, NodeView<T>>,
    path: Seq<Seq<char>>,
    v: NodeView<T>,
    other: Seq<Seq<char>>,
)
    requires
        path.len() > 0,
        other.len() > 0,
        other[0] != path[0],
    ensures
        view_at(put(m, path, v), other) == view_at(m, other),
        view_at(take(m, path), other) == view_at(m, other),
{
}

/// Removing what was just inserted under a name that was not there gives
/// back the folder as it was.
pub proof fn law_remove_undoes_fresh_insert<T>(
    m: Map<Seq<char>, NodeView<T>>,
    path: Seq<Seq<char>>,
    v: NodeView<T>,
)
    requires
        path.len() > 0,
        !m.contains_key(path[0]),
    ensures
        take(put(m, path, v), path) == m,
{
    if path.len() > 1 {
        lemma_chain(path.drop_first(), v);
    }
    assert(take(put(m, path, v), path) =~= m);
}

/// The names `a` and `b` part somewhere: neither is a prefix of the other.
pub open spec fn diverge(a: Seq<Seq<char>>, b: Seq<Seq<char>>) -> bool
    decreases a.len(),
{
    a.len() > 0 && b.len() > 0 && (a[0] != b[0] || diverge(a.drop_first(), b.drop_first()))
}

/// A chain of new folders along `q` holds nothing at a path that parts
/// from `q`, and leaves it reachable.
proof fn lemma_chain_elsewhere<T>(q: Seq<Seq<char>>, v: NodeView<T>, p: Seq<Seq<char>>)
    requires
        diverge(q, p),
    ensures
        chain(q, v) matches NodeView::Folder(sub) && view_at(sub, p) is None && reaches(sub, p),
    decreases q.len(),
{
    if q[0] == p[0] {
        lemma_chain_elsewhere(q.drop_first(), v, p.drop_first());
    }
}

/// An insertion at `q` changes neither what is at a path that parts from
/// `q` nor whether that path is reachable.
proof fn lemma_put_elsewhere<T>(m: Map<Seq<char>, NodeView<T>>, q: Seq<Seq<char>>, v: NodeView<T>, p: Seq<Seq<char>>)
    requires
        diverge(q, p),
    ensures
        view_at(put(m, q, v), p) == view_at(m, p),
        reaches(put(m, q, v), p) == reaches(m, p),
    decreases q.len(),
{
    if q[0] == p[0] {
        if m.contains_key(q[0]) {
            match m[q[0]] {
                NodeView::Folder(sub) => {
                    lemma_put_elsewhere(sub, q.drop_first(), v, p.drop_first());
                },
                NodeView::Item(_) => {},
            }
        } else {
            lemma_chain_elsewhere(q.drop_first(), v, p.drop_first());
        }
    }
}

/// An item stays where it is when something is put at a path where
/// nothing is.
proof fn lemma_put_keeps_item<T>(
    m: Map<Seq<char>, NodeView<T>>,
    q: Seq<Seq<char>>,
    v: NodeView<T>,
    p: Seq<Seq<char>>,
    t: T,
)
    requires
        q.len() > 0,
        view_at(m, q) is None,
        view_at(m, p) == Some(NodeView::Item(t)),
    ensures
        view_at(put(m, q, v), p) == Some(NodeView::<T>::Item(t)),
    decreases q.len(),
{
    if q[0] == p[0] && q.len() > 1 && p.len() > 1 {
        match m[q[0]] {
            NodeView::Folder(sub) => {
                lemma_put_keeps_item(sub, q.drop_first(), v, p.drop_first(), t);
            },
            NodeView::Item(_) => {},
        }
    }
}

/// Before item `i`, whose path parts from the paths of the items before
/// it, nothing is at its path and the path is reachable.
proof fn lemma_path_free<T>(s: Seq<(Seq<char>, T)>, i: int, k: int)
    requires
        0 <= k <= i < s.len(),
        forall|j: int|
            0 <= j < i && (#[trigger] s[j]).0.len() > 0 ==> diverge(pieces(s[j].0), pieces(s[i].0)),
    ensures
        view_at(planted_all(s.take(k)), pieces(s[i].0)) is None,
        reaches(planted_all(s.take(k)), pieces(s[i].0)),
    decreases k,
{
    if k == 0 {
        assert(s.take(0) =~= Seq::<(Seq<char>, T)>::empty());
    } else {
        lemma_path_free(s, i, k - 1);
        assert(s.take(k).drop_last() =~= s.take(k - 1));
        assert(s.take(k).last() == s[k - 1]);
        let m = planted_all(s.take(k - 1));
        let q = s[k - 1].0;
        if !(q.len() == 0 || lookup(m, q) is Some) {
            lemma_put_elsewhere(m, pieces(q), NodeView::Item(s[k - 1].1), pieces(s[i].0));
        }
    }
}

/// Once item `i` is at its path, the items after it leave it there.
proof fn lemma_item_stays<T>(s: Seq<(Seq<char>, T)>, i: int, k: int)
    requires
        0 <= i < k <= s.len(),
        plain_path(s[i].0),
        forall|j: int|
            0 <= j < i && (#[trigger] s[j]).0.len() > 0 ==> diverge(pieces(s[j].0), pieces(s[i].0)),
    ensures
        view_at(planted_all(s.take(k)), pieces(s[i].0)) == Some(NodeView::<T>::Item(s[i].1)),
    decreases k,
{
    let p = s[i].0;
    crate::path_tree::util::lemma_pieces(p);
    assert(s.take(k).drop_last() =~= s.take(k - 1));
    assert(s.take(k).last() == s[k - 1]);
    if k == i + 1 {
        lemma_path_free(s, i, i);
        assert(pieces(p)[0].len() > 0);
        assert(p.len() > 0) by {
            if p.len() == 0 {
                crate::path_tree::util::lemma_first_sep_from(p, 0);
            }
        }
        law_get_after_insert(planted_all(s.take(i)), pieces(p), NodeView::Item(s[i].1));
    } else {
        lemma_item_stays(s, i, k - 1);
        let m = planted_all(s.take(k - 1));
        let q = s[k - 1].0;
        if !(q.len() == 0 || lookup(m, q) is Some) {
            crate::path_tree::util::lemma_pieces(q);
            lemma_put_keeps_item(m, pieces(q), NodeView::Item(s[k - 1].1), pieces(p), s[i].1);
        }
    }
}

/// Of the items put one after the other at their paths, one whose path
/// parts from the path of every item before it ends up at its path,
/// whatever comes after: of several items with one path the first stays.
pub proof fn law_from_vec_keeps_first<T>(s: Seq<(Seq<char>, T)>, i: int)
    requires
        0 <= i < s.len(),
        plain_path(s[i].0),
        forall|j: int|
            0 <= j < i && (#[trigger] s[j]).0.len() > 0 ==> diverge(pieces(s[j].0), pieces(s[i].0)),
    ensures
        lookup(planted_all(s), s[i].0) == Some(NodeView::<T>::Item(s[i].1)),
{
    lemma_item_stays(s, i, s.len() as int);
    assert(s.take(s.len() as int) =~= s);
}

} // verus!
