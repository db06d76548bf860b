//! Folders: named children kept sorted by name, found by binary search.
//!
//! Built for trees of moderate size and depth that are built once and
//! changed rarely: lookups and walks are cheap and compact, insertions and
//! removals move elements.

use vstd::prelude::*;
use vstd::pervasive::unreached;
use vstd::string::StrSliceExecFns;
use crate::key::KeyOrder;
use crate::text::{lex_lt, compare_str, lemma_lex_asym, lemma_lex_trans};
use crate::path_tree::node::Node;
use crate::path_tree::entry::{Entry, OccupiedEntry, VacantEntry};
use crate::path_tree::iter::{Iter, IterMut};
use vstd::string::StringExecFns;
use crate::path_tree::util::{
    is_sep, pieces, split_path_once, first_sep_from, lemma_first_sep_from, lemma_pieces, plain_path,
    lemma_plain_rest, lemma_plain_pieces, lemma_first_sep_none,
};

verus! {

broadcast use vstd::string::group_string_axioms;

/// A folder: named child nodes in ascending order of name.
#[derive(Debug, PartialEq, Eq, PartialOrd, Ord, Hash)]
pub struct Folder<T> {
    children: Vec<(String, Node<T>)>,
}

/// A path tree as a value: an item, or a folder mapping names to subtrees.
pub enum NodeView<T> {
    Item(T),
    Folder(Map<Seq<char>, NodeView<T>>),
}

/// The children of a folder by name.
pub closed spec fn folder_view<T>(f: Folder<T>) -> Map<Seq<char>, NodeView<T>>
    decreases f, 0nat,
{
    children_map(f.children@)
}

spec fn children_map<T>(c: Seq<(String, Node<T>)>) -> Map<Seq<char>, NodeView<T>>
    decreases c, c.len(),
{
    if c.len() == 0 {
        Map::empty()
    } else {
        children_map(c.drop_last()).insert(c.last().0@, node_view(c.last().1))
    }
}

/// The tree that a node holds.
pub open spec fn node_view<T>(n: Node<T>) -> NodeView<T>
    decreases n, 0nat,
{
    match n {
        Node::Item(t) => NodeView::Item(t),
        Node::Folder(f) => NodeView::Folder(folder_view(f)),
    }
}

impl<T> View for Folder<T> {
    type V = Map<Seq<char>, NodeView<T>>;

    /// The children by name.
    open spec fn view(&self) -> Map<Seq<char>, NodeView<T>> {
        folder_view(*self)
    }
}

impl<T> View for Node<T> {
    type V = NodeView<T>;

    open spec fn view(&self) -> NodeView<T> {
        node_view(*self)
    }
}

/// The subtree at the end of the names `path`, going down from the
/// children `m`.
pub open spec fn view_at<T>(m: Map<Seq<char>, NodeView<T>>, path: Seq<Seq<char>>) -> Option<
    NodeView<T>,
>
    decreases path.len(),
{
    if path.len() == 0 || !m.contains_key(path[0]) {
        None
    } else if path.len() == 1 {
        Some(m[path[0]])
    } else {
        match m[path[0]] {
            NodeView::Folder(sub) => view_at(sub, path.drop_first()),
            NodeView::Item(_) => None,
        }
    }
}

/// The node at `path`: its names are the pieces between separators.
pub open spec fn lookup<T>(m: Map<Seq<char>, NodeView<T>>, path: Seq<char>) -> Option<NodeView<T>> {
    view_at(m, pieces(path))
}

/// `v` below a chain of single-child folders named `names`.
pub open spec fn chain<T>(names: Seq<Seq<char>>, v: NodeView<T>) -> NodeView<T>
    decreases names.len(),
{
    if names.len() == 0 {
        v
    } else {
        NodeView::Folder(Map::empty().insert(names[0], chain(names.drop_first(), v)))
    }
}

/// The children `m` with `v` put at `path`, folders created on the way.
/// A path that runs through an item leaves `m` as it is.
pub open spec fn put<T>(m: Map<Seq<char>, NodeView<T>>, path: Seq<Seq<char>>, v: NodeView<T>) -> Map<
    Seq<char>,
    NodeView<T>,
>
    decreases path.len(),
{
    if path.len() == 0 {
        m
    } else if path.len() == 1 {
        m.insert(path[0], v)
    } else if !m.contains_key(path[0]) {
        m.insert(path[0], chain(path.drop_first(), v))
    } else {
        match m[path[0]] {
            NodeView::Folder(sub) => m.insert(
                path[0],
                NodeView::Folder(put(sub, path.drop_first(), v)),
            ),
            NodeView::Item(_) => m,
        }
    }
}

/// The children `m` with the node at `path` taken away; a folder that
/// the removal leaves empty goes too.
pub open spec fn take<T>(m: Map<Seq<char>, NodeView<T>>, path: Seq<Seq<char>>) -> Map<
    Seq<char>,
    NodeView<T>,
>
    decreases path.len(),
{
    if path.len() == 0 || !m.contains_key(path[0]) {
        m
    } else if path.len() == 1 {
        m.remove(path[0])
    } else {
        match m[path[0]] {
            NodeView::Folder(sub) => if view_at(sub, path.drop_first()) is None {
                m
            } else if take(sub, path.drop_first()).dom().len() == 0 {
                m.remove(path[0])
            } else {
                m.insert(path[0], NodeView::Folder(take(sub, path.drop_first())))
            },
            NodeView::Item(_) => m,
        }
    }
}

/// Names strictly ascend.
pub open spec fn names_sorted<T>(c: Seq<(String, Node<T>)>) -> bool {
    forall|i: int, j: int|
        0 <= i < j < c.len() ==> lex_lt(#[trigger] c[i].0@, #[trigger] c[j].0@)
}

impl<T> Folder<T> {
    /// Every folder of the tree keeps its names strictly ascending.
    pub closed spec fn wf(self) -> bool
        decreases self, 0nat,
    {
        names_sorted(self.children@) && children_wf(self.children@)
    }
}

spec fn children_wf<T>(c: Seq<(String, Node<T>)>) -> bool
    decreases c, c.len(),
{
    if c.len() == 0 {
        true
    } else {
        node_wf(c.last().1) && children_wf(c.drop_last())
    }
}

/// A node is well formed: an item, or a well-formed folder.
pub open spec fn node_wf<T>(n: Node<T>) -> bool
    decreases n, 0nat,
{
    match n {
        Node::Item(_) => true,
        Node::Folder(f) => f.wf(),
    }
}

proof fn lemma_wf_same_names<T>(a: Folder<T>, b: Folder<T>)
    requires
        a.wf(),
        b.size() == a.size(),
        forall|i: int| 0 <= i < a.size() ==> #[trigger] b.key_at(i) == a.key_at(i),
    ensures
        (forall|i: int| 0 <= i < b.size() ==> node_wf(#[trigger] b.node_at_index(i))) ==> b.wf(),
{
    lemma_children_wf(b.children@);
    if forall|i: int| 0 <= i < b.size() ==> node_wf(#[trigger] b.node_at_index(i)) {
        assert forall|i: int| 0 <= i < b.children@.len() implies node_wf(#[trigger] b.children@[i].1) by {
            assert(node_wf(b.node_at_index(i)));
        }
    }
    assert forall|i: int, j: int| 0 <= i < j < b.children@.len() implies lex_lt(
        #[trigger] b.children@[i].0@,
        #[trigger] b.children@[j].0@,
    ) by {
        assert(b.key_at(i) == a.key_at(i));
        assert(b.key_at(j) == a.key_at(j));
    }
}

proof fn lemma_wf_same_names_all<T>(a: Folder<T>)
    requires
        a.wf(),
    ensures
        forall|b: Folder<T>|
            b.size() == a.size() && (forall|i: int| 0 <= i < a.size() ==> #[trigger] b.key_at(i) == a.key_at(i))
                && (forall|i: int| 0 <= i < b.size() ==> node_wf(#[trigger] b.node_at_index(i)))
                ==> #[trigger] b.wf(),
{
    assert forall|b: Folder<T>|
        b.size() == a.size() && (forall|i: int| 0 <= i < a.size() ==> #[trigger] b.key_at(i) == a.key_at(i))
            && (forall|i: int| 0 <= i < b.size() ==> node_wf(#[trigger] b.node_at_index(i)))
            implies #[trigger] b.wf() by {
        lemma_wf_same_names(a, b);
    }
}

proof fn lemma_children_wf<T>(c: Seq<(String, Node<T>)>)
    ensures
        children_wf(c) <==> forall|i: int| 0 <= i < c.len() ==> node_wf(#[trigger] c[i].1),
    decreases c.len(),
{
    if c.len() > 0 {
        lemma_children_wf(c.drop_last());
        if forall|i: int| 0 <= i < c.len() ==> node_wf(#[trigger] c[i].1) {
            assert forall|i: int| 0 <= i < c.drop_last().len() implies node_wf(
                #[trigger] c.drop_last()[i].1,
            ) by {
                assert(c.drop_last()[i] == c[i]);
            }
        }
        if children_wf(c) {
            assert forall|i: int| 0 <= i < c.len() implies node_wf(#[trigger] c[i].1) by {
                if i < c.len() - 1 {
                    assert(c.drop_last()[i] == c[i]);
                }
            }
        }
    }
}

/// With distinct names, the map holds exactly the named children.
proof fn lemma_children_map<T>(c: Seq<(String, Node<T>)>)
    requires
        names_sorted(c),
    ensures
        forall|k: Seq<char>|
            #[trigger] children_map(c).contains_key(k) <==> exists|i: int|
                0 <= i < c.len() && c[i].0@ == k,
        forall|i: int| 0 <= i < c.len() ==> #[trigger] children_map(c)[c[i].0@] == node_view(c[i].1),
        children_map(c).dom().finite(),
        children_map(c).dom().len() == c.len(),
    decreases c.len(),
{
    if c.len() > 0 {
        let d = c.drop_last();
        assert forall|i: int, j: int| 0 <= i < j < d.len() implies lex_lt(
            #[trigger] d[i].0@,
            #[trigger] d[j].0@,
        ) by {
            assert(d[i] == c[i] && d[j] == c[j]);
        }
        lemma_children_map(d);
        let last = c.last();
        assert(last == c[c.len() - 1]);
        assert forall|i: int| 0 <= i < d.len() implies d[i].0@ != last.0@ by {
            assert(d[i] == c[i]);
            assert(lex_lt(c[i].0@, c[c.len() - 1].0@));
            lemma_lex_asym(c[i].0@, c[i].0@);
        }
        assert(!children_map(d).contains_key(last.0@));
        assert forall|k: Seq<char>| #[trigger] children_map(c).contains_key(k) <==> exists|i: int|
            0 <= i < c.len() && c[i].0@ == k by {
            if children_map(d).contains_key(k) {
                let i = choose|i: int| 0 <= i < d.len() && d[i].0@ == k;
                assert(c[i] == d[i]);
            }
            if exists|i: int| 0 <= i < c.len() && c[i].0@ == k {
                let i = choose|i: int| 0 <= i < c.len() && c[i].0@ == k;
                if i < d.len() {
                    assert(c[i] == d[i]);
                }
            }
        }
        assert forall|i: int| 0 <= i < c.len() implies #[trigger] children_map(c)[c[i].0@]
            == node_view(c[i].1) by {
            if i < d.len() {
                assert(c[i] == d[i]);
            }
        }
    }
}

impl<T> Folder<T> {
    /// Well-formedness: sorted names, and every child folder well formed.
    proof fn lemma_wf(self)
        ensures
            self.wf() <==> names_sorted(self.children@) && forall|i: int|
                0 <= i < self.children@.len() ==> node_wf(#[trigger] self.children@[i].1),
    {
        lemma_children_wf(self.children@);
    }
}

/// In a sorted list, two children with the same name are one.
proof fn lemma_sorted_unique<T>(c: Seq<(String, Node<T>)>, i: int, j: int)
    requires
        names_sorted(c),
        0 <= i < c.len(),
        0 <= j < c.len(),
        c[i].0@ == c[j].0@,
    ensures
        i == j,
{
    lemma_lex_asym(c[i].0@, c[i].0@);
    if i < j {
        assert(lex_lt(c[i].0@, c[j].0@));
    } else if j < i {
        assert(lex_lt(c[j].0@, c[i].0@));
    }
}


/// Replacing the node of child `i` replaces its entry in the map.
proof fn lemma_children_map_update<T>(c: Seq<(String, Node<T>)>, i: int, x: (String, Node<T>))
    requires
        names_sorted(c),
        0 <= i < c.len(),
        x.0@ == c[i].0@,
    ensures
        names_sorted(c.update(i, x)),
        children_map(c.update(i, x)) == children_map(c).insert(x.0@, node_view(x.1)),
{
    let d = c.update(i, x);
    assert forall|a: int, b: int| 0 <= a < b < d.len() implies lex_lt(
        #[trigger] d[a].0@,
        #[trigger] d[b].0@,
    ) by {
        assert(d[a].0@ == c[a].0@ && d[b].0@ == c[b].0@);
    }
    lemma_children_map(c);
    lemma_children_map(d);
    let m = children_map(c).insert(x.0@, node_view(x.1));
    assert forall|k: Seq<char>| #[trigger] children_map(d).contains_key(k) <==> m.contains_key(k) by {
        if exists|j: int| 0 <= j < c.len() && c[j].0@ == k {
            let j = choose|j: int| 0 <= j < c.len() && c[j].0@ == k;
            assert(d[j].0@ == k);
        }
        if exists|j: int| 0 <= j < d.len() && d[j].0@ == k {
            let j = choose|j: int| 0 <= j < d.len() && d[j].0@ == k;
            assert(c[j].0@ == k);
        }
    }
    assert forall|k: Seq<char>| #[trigger] children_map(d).contains_key(k) implies children_map(
        d,
    )[k] == m[k] by {
        let j = choose|j: int| 0 <= j < d.len() && d[j].0@ == k;
        if j == i {
            assert(children_map(d)[d[j].0@] == node_view(d[j].1));
        } else {
            assert(c[j] == d[j]);
            assert(k != x.0@) by {
                if k == x.0@ {
                    lemma_sorted_unique(c, i, j);
                }
            }
        }
    }
    assert(children_map(d) =~= m);
}

/// Going down into the folder `sub` named `name`.
proof fn lemma_descend<T>(
    m: Map<Seq<char>, NodeView<T>>,
    name: Seq<char>,
    sub: Map<Seq<char>, NodeView<T>>,
    x: Seq<Seq<char>>,
)
    requires
        m.contains_key(name),
        m[name] == NodeView::Folder(sub),
    ensures
        folder_at(m, seq![name] + x) == folder_at(sub, x),
        forall|f: Map<Seq<char>, NodeView<T>>|
            #[trigger] graft(m, seq![name] + x, f) == m.insert(
                name,
                NodeView::Folder(graft(sub, x, f)),
            ),
        x.len() > 0 ==> view_at(m, seq![name] + x) == view_at(sub, x),
        forall|v: NodeView<T>|
            x.len() > 0 ==> #[trigger] put(m, seq![name] + x, v) == m.insert(
                name,
                NodeView::Folder(put(sub, x, v)),
            ),
{
    let p = seq![name] + x;
    assert(p[0] == name);
    assert(p.drop_first() =~= x);
}

/// A piece without separators is its own only piece.
proof fn lemma_no_sep_pieces(s: Seq<char>)
    requires
        first_sep_from(s, 0) is None,
    ensures
        pieces(s) == seq![s],
{
    lemma_pieces(s);
}

/// Cutting a path after its first piece, a separator and a prefix `rel`
/// of the rest cuts its pieces accordingly.
proof fn lemma_prefix_pieces(s: Seq<char>, i: int, rel: Seq<char>)
    requires
        first_sep_from(s, 0) == Some(i),
        i + 1 + rel.len() <= s.len(),
        rel == s.skip(i + 1).take(rel.len() as int),
    ensures
        pieces(s.take(i + 1 + rel.len())) == seq![s.take(i)] + pieces(rel),
        s.take(i + 1 + rel.len()).skip(i + 1) == rel,
{
    let t = s.take(i + 1 + rel.len());
    lemma_first_sep_from(s, 0);
    lemma_first_sep_take(s, i + 1 + rel.len(), 0, i);
    lemma_pieces(t);
    assert(t.take(i) =~= s.take(i));
    assert(t.skip(i + 1) =~= rel);
}

proof fn lemma_first_sep_take(s: Seq<char>, n: int, k: int, i: int)
    requires
        first_sep_from(s, k) == Some(i),
        0 <= k <= i < n <= s.len(),
    ensures
        first_sep_from(s.take(n), k) == Some(i),
    decreases i - k,
{
    lemma_first_sep_from(s, k);
    if k < i {
        lemma_first_sep_take(s, n, k + 1, i);
    }
}

/// Whatever node child `i` is given, the map and well-formedness follow.
proof fn lemma_update_any<T>(c: Seq<(String, Node<T>)>, i: int)
    requires
        names_sorted(c),
        children_wf(c),
        0 <= i < c.len(),
    ensures
        forall|x: (String, Node<T>)|
            #![trigger c.update(i, x)]
            x.0@ == c[i].0@ ==> {
                &&& children_map(c.update(i, x)) == children_map(c).insert(x.0@, node_view(x.1))
                &&& names_sorted(c.update(i, x))
                &&& node_wf(x.1) ==> children_wf(c.update(i, x))
            },
{
    assert forall|x: (String, Node<T>)| #![trigger c.update(i, x)] x.0@ == c[i].0@ implies {
        &&& children_map(c.update(i, x)) == children_map(c).insert(x.0@, node_view(x.1))
        &&& names_sorted(c.update(i, x))
        &&& node_wf(x.1) ==> children_wf(c.update(i, x))
    } by {
        lemma_children_map_update(c, i, x);
        lemma_children_wf(c);
        lemma_children_wf(c.update(i, x));
        if node_wf(x.1) {
            assert forall|j: int| 0 <= j < c.update(i, x).len() implies node_wf(
                #[trigger] c.update(i, x)[j].1,
            ) by {
                if j != i {
                    assert(c.update(i, x)[j] == c[j]);
                }
            }
        }
    }
}

/// Inserting a child at its place in the order adds its entry to the map.
proof fn lemma_children_map_insert<T>(c: Seq<(String, Node<T>)>, i: int, x: (String, Node<T>))
    requires
        names_sorted(c),
        0 <= i <= c.len(),
        forall|j: int| 0 <= j < i ==> lex_lt(#[trigger] c[j].0@, x.0@),
        forall|j: int| i <= j < c.len() ==> lex_lt(x.0@, #[trigger] c[j].0@),
    ensures
        names_sorted(c.insert(i, x)),
        children_map(c.insert(i, x)) == children_map(c).insert(x.0@, node_view(x.1)),
{
    let d = c.insert(i, x);
    assert forall|a: int, b: int| 0 <= a < b < d.len() implies lex_lt(
        #[trigger] d[a].0@,
        #[trigger] d[b].0@,
    ) by {
        if b < i {
            assert(d[a] == c[a] && d[b] == c[b]);
        } else if b == i {
            assert(d[a] == c[a]);
        } else if a < i {
            assert(d[a] == c[a] && d[b] == c[b - 1]);
            lemma_lex_trans(c[a].0@, x.0@, c[b - 1].0@);
        } else if a == i {
            assert(d[b] == c[b - 1]);
        } else {
            assert(d[a] == c[a - 1] && d[b] == c[b - 1]);
        }
    }
    lemma_children_map(c);
    lemma_children_map(d);
    let m = children_map(c).insert(x.0@, node_view(x.1));
    assert forall|k: Seq<char>| #[trigger] children_map(d).contains_key(k) <==> m.contains_key(k) by {
        if exists|j: int| 0 <= j < c.len() && c[j].0@ == k {
            let j = choose|j: int| 0 <= j < c.len() && c[j].0@ == k;
            if j < i {
                assert(d[j] == c[j]);
            } else {
                assert(d[j + 1] == c[j]);
            }
        }
        if k == x.0@ {
            assert(d[i] == x);
        }
        if exists|j: int| 0 <= j < d.len() && d[j].0@ == k {
            let j = choose|j: int| 0 <= j < d.len() && d[j].0@ == k;
            if j < i {
                assert(d[j] == c[j]);
            } else if j > i {
                assert(d[j] == c[j - 1]);
            }
        }
    }
    assert forall|k: Seq<char>| #[trigger] children_map(d).contains_key(k) implies children_map(
        d,
    )[k] == m[k] by {
        let j = choose|j: int| 0 <= j < d.len() && d[j].0@ == k;
        assert(children_map(d)[d[j].0@] == node_view(d[j].1));
        if j < i {
            assert(d[j] == c[j]);
            lemma_lex_asym(c[j].0@, x.0@);
        } else if j > i {
            assert(d[j] == c[j - 1]);
            lemma_lex_asym(x.0@, c[j - 1].0@);
        }
    }
    assert(children_map(d) =~= m);
}

/// Removing child `i` removes its entry from the map.
proof fn lemma_children_map_remove<T>(c: Seq<(String, Node<T>)>, i: int)
    requires
        names_sorted(c),
        0 <= i < c.len(),
    ensures
        names_sorted(c.remove(i)),
        children_map(c.remove(i)) == children_map(c).remove(c[i].0@),
{
    let d = c.remove(i);
    assert forall|a: int, b: int| 0 <= a < b < d.len() implies lex_lt(
        #[trigger] d[a].0@,
        #[trigger] d[b].0@,
    ) by {
        let a2 = if a < i { a } else { a + 1 };
        let b2 = if b < i { b } else { b + 1 };
        assert(d[a] == c[a2] && d[b] == c[b2]);
    }
    lemma_children_map(c);
    lemma_children_map(d);
    let m = children_map(c).remove(c[i].0@);
    assert forall|k: Seq<char>| #[trigger] children_map(d).contains_key(k) <==> m.contains_key(k) by {
        if exists|j: int| 0 <= j < c.len() && c[j].0@ == k && k != c[i].0@ {
            let j = choose|j: int| 0 <= j < c.len() && c[j].0@ == k && k != c[i].0@;
            if j < i {
                assert(d[j] == c[j]);
            } else {
                assert(j != i);
                assert(d[j - 1] == c[j]);
            }
        }
        if exists|j: int| 0 <= j < d.len() && d[j].0@ == k {
            let j = choose|j: int| 0 <= j < d.len() && d[j].0@ == k;
            let j2 = if j < i { j } else { j + 1 };
            assert(d[j] == c[j2]);
            if k == c[i].0@ {
                lemma_sorted_unique(c, i, j2);
            }
        }
    }
    assert forall|k: Seq<char>| #[trigger] children_map(d).contains_key(k) implies children_map(
        d,
    )[k] == m[k] by {
        let j = choose|j: int| 0 <= j < d.len() && d[j].0@ == k;
        let j2 = if j < i { j } else { j + 1 };
        assert(d[j] == c[j2]);
        assert(children_map(d)[d[j].0@] == node_view(d[j].1));
    }
    assert(children_map(d) =~= m);
}

/// The children `m` with the folder at `path` replaced by one holding
/// `sub` (`sub` itself for the empty path).
pub open spec fn graft<T>(
    m: Map<Seq<char>, NodeView<T>>,
    path: Seq<Seq<char>>,
    sub: Map<Seq<char>, NodeView<T>>,
) -> Map<Seq<char>, NodeView<T>> {
    if path.len() == 0 {
        sub
    } else {
        put(m, path, NodeView::Folder(sub))
    }
}

/// The children of the folder at `path` (the children `m` themselves for
/// the empty path).
pub open spec fn folder_at<T>(m: Map<Seq<char>, NodeView<T>>, path: Seq<Seq<char>>) -> Option<
    Map<Seq<char>, NodeView<T>>,
> {
    if path.len() == 0 {
        Some(m)
    } else {
        match view_at(m, path) {
            Some(NodeView::Folder(sub)) => Some(sub),
            _ => None,
        }
    }
}

impl<T> Folder<T> {
    /// Every node below this folder in pre-order (children ascending by
    /// name, each followed by what lies below it), each with its path: the
    /// names joined by `/`, after `prefix`.
    pub closed spec fn walk(self, prefix: Seq<char>) -> Seq<(Seq<char>, Node<T>)>
        decreases self, 0nat,
    {
        walk_children(self.children@, prefix)
    }
}

spec fn walk_children<T>(c: Seq<(String, Node<T>)>, prefix: Seq<char>) -> Seq<(Seq<char>, Node<T>)>
    decreases c, c.len(),
{
    if c.len() == 0 {
        seq![]
    } else {
        let path = prefix + c.last().0@;
        walk_children(c.drop_last(), prefix) + seq![(path, c.last().1)] + node_walk(
            c.last().1,
            path + seq!['/'],
        )
    }
}

/// What lies below a node in pre-order: nothing below an item.
pub open spec fn node_walk<T>(n: Node<T>, prefix: Seq<char>) -> Seq<(Seq<char>, Node<T>)>
    decreases n, 0nat,
{
    match n {
        Node::Item(_) => seq![],
        Node::Folder(f) => f.walk(prefix),
    }
}

/// The pre-order walk of the first `k` children of `f` and what lies
/// below them.
pub open spec fn walk_upto<T>(f: Folder<T>, prefix: Seq<char>, k: int) -> Seq<(Seq<char>, Node<T>)>
    decreases k,
{
    if k <= 0 {
        seq![]
    } else {
        let path = prefix + f.key_at(k - 1);
        walk_upto(f, prefix, k - 1) + seq![(path, f.node_at_index(k - 1))] + node_walk(
            f.node_at_index(k - 1),
            path + seq!['/'],
        )
    }
}

proof fn lemma_walk_children<T>(f: Folder<T>, prefix: Seq<char>, k: int)
    requires
        0 <= k <= f.children@.len(),
    ensures
        walk_children(f.children@.take(k), prefix) == walk_upto(f, prefix, k),
    decreases k,
{
    if k > 0 {
        lemma_walk_children(f, prefix, k - 1);
        assert(f.children@.take(k).drop_last() =~= f.children@.take(k - 1));
    }
}

impl<T> Folder<T> {
    /// The walk goes child by child.
    pub proof fn lemma_walk(self, prefix: Seq<char>)
        ensures
            self.walk(prefix) == walk_upto(self, prefix, self.size() as int),
    {
        lemma_walk_children(self, prefix, self.size() as int);
        assert(self.children@.take(self.size() as int) =~= self.children@);
    }
}

/// How many nodes a walk meets does not depend on the prefix of paths.
proof fn lemma_walk_len<T>(f: Folder<T>, p: Seq<char>, q: Seq<char>)
    ensures
        f.walk(p).len() == f.walk(q).len(),
    decreases f, 1nat,
{
    lemma_walk_upto_len(f, p, q, f.children@.len() as int);
    f.lemma_walk(p);
    f.lemma_walk(q);
}

proof fn lemma_walk_upto_mono<T>(f: Folder<T>, p: Seq<char>, j: int, k: int)
    requires
        0 <= j <= k,
    ensures
        walk_upto(f, p, j).len() <= walk_upto(f, p, k).len(),
    decreases k - j,
{
    if j < k {
        lemma_walk_upto_mono(f, p, j, k - 1);
    }
}

proof fn lemma_walk_upto_len<T>(f: Folder<T>, p: Seq<char>, q: Seq<char>, k: int)
    requires
        0 <= k <= f.children@.len(),
    ensures
        walk_upto(f, p, k).len() == walk_upto(f, q, k).len(),
    decreases f, 0nat, k,
{
    if k > 0 {
        lemma_walk_upto_len(f, p, q, k - 1);
        match f.children@[k - 1].1 {
            Node::Folder(g) => {
                assert(decreases_to!(f => f.children));
                assert(decreases_to!(f.children => f.children@));
                assert(decreases_to!(f.children@ => f.children@[k - 1]));
                assert(decreases_to!(f.children@[k - 1] => f.children@[k - 1].1));
                lemma_walk_len(
                    g,
                    p + f.key_at(k - 1) + seq!['/'],
                    q + f.key_at(k - 1) + seq!['/'],
                );
            },
            Node::Item(_) => {},
        }
    }
}

/// Paths and nodes of a walk as values.
pub open spec fn walk_view<'a, T>(v: Seq<(String, &'a Node<T>)>) -> Seq<(Seq<char>, Node<T>)> {
    v.map_values(|p: (String, &'a Node<T>)| (p.0@, *p.1))
}

/// `b` is a copy of `a`: an item cloned from `a`'s, or a folder that is a
/// copy of `a`'s.
pub closed spec fn node_copy<T: Clone>(a: Node<T>, b: Node<T>) -> bool
    decreases a, 0nat,
{
    match (a, b) {
        (Node::Item(x), Node::Item(y)) => cloned(x, y),
        (Node::Folder(f), Node::Folder(g)) => folder_copy(f, g),
        _ => false,
    }
}

/// `g` is a copy of `f`: the same names in the same order, each node a copy
/// of the node in its place.
pub closed spec fn folder_copy<T: Clone>(f: Folder<T>, g: Folder<T>) -> bool
    decreases f, 0nat,
{
    &&& g.children@.len() == f.children@.len()
    &&& forall|i: int|
        0 <= i < f.children@.len() ==> {
            &&& (#[trigger] g.children@[i]).0@ == f.children@[i].0@
            &&& node_copy(f.children@[i].1, g.children@[i].1)
        }
}

/// A copy of the folder `f`: the same names at every level, items cloned.
fn clone_folder<T: Clone>(f: &Folder<T>) -> (r: Folder<T>)
    ensures
        r.size() == f.size(),
        forall|i: int| 0 <= i < f.size() ==> #[trigger] r.key_at(i) == f.key_at(i),
        folder_copy(*f, r),
        f.wf() ==> r.wf(),
    decreases f,
{
    let mut children: Vec<(String, Node<T>)> = Vec::new();
    let mut k: usize = 0;
    proof {
        f.lemma_wf();
    }
    while k < f.children.len()
        invariant
            k <= f.children.len(),
            children@.len() == k,
            forall|j: int| 0 <= j < k ==> #[trigger] children@[j].0@ == f.children@[j].0@,
            forall|j: int| 0 <= j < k ==> node_copy(f.children@[j].1, #[trigger] children@[j].1),
            f.wf() ==> forall|j: int| 0 <= j < k ==> node_wf(#[trigger] children@[j].1),
            f.wf() ==> forall|j: int| 0 <= j < f.children@.len() ==> node_wf(
                #[trigger] f.children@[j].1,
            ),
        decreases f.children.len() - k,
    {
        let (name, node) = &f.children[k];
        let copy = match node {
            Node::Item(item) => Node::Item(item.clone()),
            Node::Folder(sub) => {
                proof {
                    assert(decreases_to!(*f => f.children));
                    assert(decreases_to!(f.children => f.children@));
                    assert(decreases_to!(f.children@ => f.children@[k as int]));
                    assert(decreases_to!(f.children@[k as int] => f.children@[k as int].1));
                }
                Node::Folder(clone_folder(sub))
            },
        };
        children.push((name.clone(), copy));
        k += 1;
    }
    let r = Folder { children };
    proof {
        if f.wf() {
            assert forall|i: int, j: int| 0 <= i < j < r.children@.len() implies lex_lt(
                #[trigger] r.children@[i].0@,
                #[trigger] r.children@[j].0@,
            ) by {
                assert(lex_lt(f.children@[i].0@, f.children@[j].0@));
            }
            lemma_children_wf(r.children@);
        }
    }
    r
}

impl<T: Clone> Clone for Folder<T> {
    /// A copy: the same names at every level, the items cloned.
    fn clone(&self) -> (r: Self)
        ensures
            r.size() == self.size(),
            forall|i: int| 0 <= i < self.size() ==> #[trigger] r.key_at(i) == self.key_at(i),
            folder_copy(*self, r),
            self.wf() ==> r.wf(),
    {
        clone_folder(self)
    }
}

impl<T: Clone> Clone for Node<T> {
    /// A copy: an item cloned, or a folder copied with the same names.
    fn clone(&self) -> (r: Self)
        ensures
            r is Item <==> self is Item,
            node_copy(*self, r),
            node_wf(*self) ==> node_wf(r),
    {
        match self {
            Node::Item(item) => Node::Item(item.clone()),
            Node::Folder(folder) => Node::Folder(clone_folder(folder)),
        }
    }
}

/// Where cloning an item gives back an equal item, a copy of a tree is the
/// same tree.
pub proof fn law_copy_of_exact_clones<T: Clone>(a: Node<T>, b: Node<T>)
    requires
        forall|x: T, y: T| cloned(x, y) ==> x == y,
        node_copy(a, b),
    ensures
        b@ == a@,
    decreases a, 0nat,
{
    match (a, b) {
        (Node::Folder(f), Node::Folder(g)) => {
            lemma_copy_children_map(f.children@, g.children@);
            assert(folder_view(g) == folder_view(f));
        },
        _ => {},
    }
}

proof fn lemma_copy_children_map<T: Clone>(c: Seq<(String, Node<T>)>, d: Seq<(String, Node<T>)>)
    requires
        forall|x: T, y: T| cloned(x, y) ==> x == y,
        d.len() == c.len(),
        forall|i: int| 0 <= i < c.len() ==> (#[trigger] d[i]).0@ == c[i].0@ && node_copy(c[i].1, d[i].1),
    ensures
        children_map(d) == children_map(c),
    decreases c, c.len(),
{
    if c.len() > 0 {
        let n = c.len() - 1;
        assert(decreases_to!(c => c[n]));
        assert(decreases_to!(c[n] => c[n].1));
        law_copy_of_exact_clones(c[n].1, d[n].1);
        assert(d[n].0@ == c[n].0@);
        lemma_copy_children_map(c.drop_last(), d.drop_last());
    }
}

impl<T> Default for Folder<T> {
    /// An empty folder.
    fn default() -> (r: Self)
        ensures
            r@ == Map::<Seq<char>, NodeView<T>>::empty(),
            r.wf(),
    {
        Folder::new()
    }
}

/// The entries of `v` list the children of the map `m`, ascending by name.
pub open spec fn lists<T>(v: Seq<(Seq<char>, NodeView<T>)>, m: Map<Seq<char>, NodeView<T>>) -> bool {
    &&& v.len() == m.dom().len()
    &&& forall|i: int, j: int| 0 <= i < j < v.len() ==> lex_lt(#[trigger] v[i].0, #[trigger] v[j].0)
    &&& forall|i: int| 0 <= i < v.len() ==> #[trigger] m.contains_key(v[i].0) && m[v[i].0] == v[i].1
}

impl<T> Folder<T> {
    /// Number of children.
    pub closed spec fn size(self) -> nat {
        self.children@.len()
    }

    /// Name of the child at position `i` of the order.
    pub closed spec fn key_at(self, i: int) -> Seq<char> {
        self.children@[i].0@
    }

    /// Node of the child at position `i` of the order.
    pub closed spec fn node_at_index(self, i: int) -> Node<T> {
        self.children@[i].1
    }

    /// Position `i` is where a child named `name` goes in the order.
    pub open spec fn gap(self, i: int, name: Seq<char>) -> bool {
        &&& 0 <= i <= self.size()
        &&& forall|j: int| 0 <= j < i ==> lex_lt(#[trigger] self.key_at(j), name)
        &&& forall|j: int| i <= j < self.size() ==> lex_lt(name, #[trigger] self.key_at(j))
    }

    /// The child at position `i` is in the map under its name.
    pub proof fn lemma_index(self, i: int)
        requires
            self.wf(),
            0 <= i < self.size(),
        ensures
            self@.contains_key(self.key_at(i)),
            self@[self.key_at(i)] == self.node_at_index(i)@,
            node_wf(self.node_at_index(i)),
    {
        self.lemma_wf();
        lemma_children_map(self.children@);
    }

    /// The children in order, as the map view sees them: as many as the
    /// map has names, names strictly ascending, each child the map's node
    /// under its name and well-formed. With `lemma_walk` this ties the walk
    /// of a folder, and so `len_recursively` and `iter_recursively`, to the
    /// view.
    pub proof fn lemma_listing(self)
        requires
            self.wf(),
        ensures
            self.size() == self@.dom().len(),
            forall|i: int, j: int|
                0 <= i < j < self.size() ==> lex_lt(#[trigger] self.key_at(i), #[trigger] self.key_at(j)),
            forall|i: int|
                0 <= i < self.size() ==> {
                    &&& self@.contains_key(#[trigger] self.key_at(i))
                    &&& self@[self.key_at(i)] == self.node_at_index(i)@
                    &&& node_wf(self.node_at_index(i))
                },
    {
        self.lemma_wf();
        lemma_children_map(self.children@);
        lemma_children_wf(self.children@);
    }

    /// The node of child `i`, to change in place.
    pub(crate) fn child_mut(&mut self, i: usize) -> (r: &mut Node<T>)
        requires
            old(self).wf(),
            i < old(self).size(),
        ensures
            *r == old(self).node_at_index(i as int),
            final(self)@ == old(self)@.insert(old(self).key_at(i as int), final(r)@),
            node_wf(*final(r)) ==> final(self).wf(),
            final(self).size() == old(self).size(),
            forall|j: int| 0 <= j < old(self).size() ==> #[trigger] final(self).key_at(j) == old(
                self,
            ).key_at(j),
            final(self).node_at_index(i as int) == *final(r),
    {
        proof {
            self.lemma_wf();
            lemma_update_any(self.children@, i as int);
        }
        &mut self.children[i].1
    }

    /// The node of child `i`.
    pub(crate) fn child(&self, i: usize) -> (r: &Node<T>)
        requires
            i < self.size(),
        ensures
            *r == self.node_at_index(i as int),
    {
        &self.children[i].1
    }

    /// Takes away child `i`.
    pub(crate) fn remove_at(&mut self, i: usize) -> (r: Node<T>)
        requires
            old(self).wf(),
            i < old(self).size(),
        ensures
            r == old(self).node_at_index(i as int),
            final(self)@ == old(self)@.remove(old(self).key_at(i as int)),
            final(self).wf(),
    {
        let ghost c0 = self.children@;
        proof {
            self.lemma_wf();
            lemma_children_map_remove(c0, i as int);
            lemma_children_wf(c0);
        }
        let (_, node) = self.children.remove(i);
        proof {
            lemma_children_wf(self.children@);
            assert forall|j: int| 0 <= j < self.children@.len() implies node_wf(
                #[trigger] self.children@[j].1,
            ) by {
                if j < i {
                    assert(self.children@[j] == c0[j]);
                } else {
                    assert(self.children@[j] == c0[j + 1]);
                }
            }
        }
        node
    }

    /// Puts a child named `name` at position `i` of the order.
    pub(crate) fn insert_at(&mut self, i: usize, name: String, node: Node<T>)
        requires
            old(self).wf(),
            old(self).gap(i as int, name@),
            node_wf(node),
        ensures
            final(self)@ == old(self)@.insert(name@, node@),
            final(self).wf(),
            final(self).size() == old(self).size() + 1,
            final(self).key_at(i as int) == name@,
            final(self).node_at_index(i as int) == node,
    {
        let ghost c0 = self.children@;
        let x = (name, node);
        proof {
            self.lemma_wf();
            lemma_children_wf(c0);
            assert forall|j: int| 0 <= j < i implies lex_lt(#[trigger] c0[j].0@, x.0@) by {
                assert(self.key_at(j) == c0[j].0@);
            }
            assert forall|j: int| i <= j < c0.len() implies lex_lt(x.0@, #[trigger] c0[j].0@) by {
                assert(self.key_at(j) == c0[j].0@);
            }
            lemma_children_map_insert(c0, i as int, x);
        }
        self.children.insert(i, x);
        proof {
            lemma_children_wf(self.children@);
            assert forall|j: int| 0 <= j < self.children@.len() implies node_wf(
                #[trigger] self.children@[j].1,
            ) by {
                if j < i {
                    assert(self.children@[j] == c0[j]);
                } else if j > i {
                    assert(self.children@[j] == c0[j - 1]);
                }
            }
        }
    }

    /// An empty folder.
    pub fn new() -> (r: Self)
        ensures
            r@ == Map::<Seq<char>, NodeView<T>>::empty(),
            r.wf(),
    {
        Folder { children: Vec::new() }
    }

    /// An empty folder with room for `capacity` children.
    pub fn with_capacity(capacity: usize) -> (r: Self)
        ensures
            r@ == Map::<Seq<char>, NodeView<T>>::empty(),
            r.wf(),
    {
        Folder { children: Vec::with_capacity(capacity) }
    }

    /// A folder with the one child `node` named `name`.
    pub fn single(name: String, node: Node<T>) -> (r: Self)
        ensures
            r@ == Map::<Seq<char>, NodeView<T>>::empty().insert(name@, node@),
            node_wf(node) ==> r.wf(),
    {
        let mut children: Vec<(String, Node<T>)> = Vec::new();
        children.push((name, node));
        let r = Folder { children };
        proof {
            assert(r.children@.drop_last() =~= Seq::<(String, Node<T>)>::empty());
            lemma_children_wf(r.children@);
            assert(r.children@[0].1 == node);
        }
        r
    }

    /// Whether the folder has no children.
    pub fn is_empty(&self) -> (b: bool)
        requires
            self.wf(),
        ensures
            b == (self@.dom().len() == 0),
    {
        proof {
            lemma_children_map(self.children@);
        }
        self.children.len() == 0
    }

    /// Number of children.
    pub fn len(&self) -> (n: usize)
        requires
            self.wf(),
        ensures
            n == self@.dom().len(),
    {
        proof {
            lemma_children_map(self.children@);
        }
        self.children.len()
    }

    /// Removes every child.
    pub fn clear(&mut self)
        ensures
            final(self)@ == Map::<Seq<char>, NodeView<T>>::empty(),
            final(self).wf(),
    {
        self.children.clear();
        assert(self.children@ =~= Seq::<(String, Node<T>)>::empty());
    }

    /// Reserves room for `additional` more children.
    pub fn reserve(&mut self, additional: usize)
        ensures
            final(self)@ == old(self)@,
            old(self).wf() ==> final(self).wf(),
    {
        self.children.reserve(additional);
        assert(self.children@ =~= old(self).children@);
    }

    /// Releases spare room.
    pub fn shrink_to_fit(&mut self)
        ensures
            final(self)@ == old(self)@,
            old(self).wf() ==> final(self).wf(),
    {
        crate::std_ext::vec_shrink_to_fit(&mut self.children);
        assert(self.children@ =~= old(self).children@);
    }

    /// The children, ascending by name, each node borrowed for change in
    /// place. The names stay as they are; the folder stays well-formed when
    /// every node is left well-formed.
    pub fn iter_mut(&mut self) -> (r: Vec<(&str, &mut Node<T>)>)
        requires
            old(self).wf(),
        ensures
            r@.len() == old(self).size(),
            forall|i: int| 0 <= i < r@.len() ==> (#[trigger] r@[i]).0@ == old(self).key_at(i),
            forall|i: int| 0 <= i < r@.len() ==> *(#[trigger] r@[i]).1 == old(self).node_at_index(i),
            final(self).size() == old(self).size(),
            forall|i: int| 0 <= i < r@.len() ==> #[trigger] final(self).key_at(i) == old(self).key_at(i),
            forall|i: int|
                0 <= i < r@.len() ==> #[trigger] final(self).node_at_index(i) == *final(r@[i].1),
            (forall|i: int| 0 <= i < r@.len() ==> node_wf(#[trigger] final(self).node_at_index(i)))
                ==> final(self).wf(),
    {
        proof {
            lemma_wf_same_names_all(*self);
        }
        let ghost old_children = self.children@;
        let r = child_refs(self.children.as_mut_slice());
        proof {
            assert forall|i: int| 0 <= i < r@.len() implies (#[trigger] r@[i]).0@ == old_children[i].0@ by {}
        }
        r
    }

    /// The children, ascending by name.
    pub fn iter(&self) -> (r: Vec<(&str, &Node<T>)>)
        requires
            self.wf(),
        ensures
            lists(r@.map_values(|p: (&str, &Node<T>)| (p.0@, p.1@)), self@),
    {
        proof {
            lemma_children_map(self.children@);
        }
        let mut r: Vec<(&str, &Node<T>)> = Vec::new();
        let mut i: usize = 0;
        while i < self.children.len()
            invariant
                i <= self.children.len(),
                r@.len() == i,
                forall|j: int|
                    0 <= j < i ==> (#[trigger] r@[j]).0@ == self.children@[j].0@ && *r@[j].1
                        == self.children@[j].1,
            decreases self.children.len() - i,
        {
            let (name, node) = &self.children[i];
            r.push((name.as_str(), node));
            i += 1;
        }
        proof {
            let v = r@.map_values(|p: (&str, &Node<T>)| (p.0@, p.1@));
            assert forall|a: int, b: int| 0 <= a < b < v.len() implies lex_lt(
                #[trigger] v[a].0,
                #[trigger] v[b].0,
            ) by {
                assert(lex_lt(self.children@[a].0@, self.children@[b].0@));
            }
            assert forall|a: int| 0 <= a < v.len() implies #[trigger] self@.contains_key(v[a].0)
                && self@[v[a].0] == v[a].1 by {
                assert(v[a].0 == self.children@[a].0@);
            }
        }
        r
    }

    /// The children, ascending by name.
    pub fn into_vec(self) -> (r: Vec<(String, Node<T>)>)
        requires
            self.wf(),
        ensures
            lists(r@.map_values(|p: (String, Node<T>)| (p.0@, p.1@)), self@),
    {
        proof {
            lemma_children_map(self.children@);
            let v = self.children@.map_values(|p: (String, Node<T>)| (p.0@, p.1@));
            assert forall|a: int, b: int| 0 <= a < b < v.len() implies lex_lt(
                #[trigger] v[a].0,
                #[trigger] v[b].0,
            ) by {
                assert(lex_lt(self.children@[a].0@, self.children@[b].0@));
            }
            assert forall|a: int| 0 <= a < v.len() implies #[trigger] self@.contains_key(v[a].0)
                && self@[v[a].0] == v[a].1 by {
                assert(v[a].0 == self.children@[a].0@);
            }
        }
        self.children
    }

    /// Where `name` is among the children: `Ok` with its position, or `Err`
    /// with the position where it would go.
    fn binary_search_child(&self, name: &str) -> (r: Result<usize, usize>)
        requires
            names_sorted(self.children@),
        ensures
            match r {
                Ok(i) => i < self.children@.len() && self.children@[i as int].0@ == name@,
                Err(i) => i <= self.children@.len() && (forall|j: int|
                    0 <= j < i ==> lex_lt(#[trigger] self.children@[j].0@, name@)) && (forall|
                    j: int,
                | i <= j < self.children@.len() ==> lex_lt(name@, #[trigger] self.children@[j].0@)),
            },
            r is Err <==> !self@.contains_key(name@),
    {
        proof {
            lemma_children_map(self.children@);
        }
        let mut lo: usize = 0;
        let mut hi: usize = self.children.len();
        while lo < hi
            invariant
                names_sorted(self.children@),
                lo <= hi <= self.children@.len(),
                forall|j: int| 0 <= j < lo ==> lex_lt(#[trigger] self.children@[j].0@, name@),
                forall|j: int|
                    hi <= j < self.children@.len() ==> lex_lt(name@, #[trigger] self.children@[j].0@),
            decreases hi - lo,
        {
            let mid = lo + (hi - lo) / 2;
            let probe = self.children[mid].0.as_str();
            match compare_str(probe, name) {
                KeyOrder::Less => {
                    proof {
                        assert forall|j: int| 0 <= j < mid + 1 implies lex_lt(
                            #[trigger] self.children@[j].0@,
                            name@,
                        ) by {
                            if j < mid {
                                lemma_lex_trans(self.children@[j].0@, probe@, name@);
                            }
                        }
                    }
                    lo = mid + 1;
                },
                KeyOrder::Greater => {
                    proof {
                        assert forall|j: int| mid <= j < self.children@.len() implies lex_lt(
                            name@,
                            #[trigger] self.children@[j].0@,
                        ) by {
                            if j > mid {
                                lemma_lex_trans(name@, probe@, self.children@[j].0@);
                            }
                        }
                    }
                    hi = mid;
                },
                KeyOrder::Equal => {
                    proof {
                        lemma_children_map(self.children@);
                        assert(self.children@[mid as int].0@ == name@);
                    }
                    return Ok(mid);
                },
            }
        }
        proof {
            if self@.contains_key(name@) {
                let j = choose|j: int| 0 <= j < self.children@.len() && self.children@[j].0@ == name@;
                lemma_lex_asym(name@, name@);
                if j < lo {
                    assert(lex_lt(self.children@[j].0@, name@));
                } else {
                    assert(lex_lt(name@, self.children@[j].0@));
                }
            }
        }
        Err(lo)
    }

    /// The node at `path`. Assumes a canonical path: `.` and irregular
    /// separators are not interpreted.
    pub fn get(&self, path: &str) -> (r: Option<&Node<T>>)
        requires
            self.wf(),
        ensures
            match lookup(self@, path@) {
                Some(v) => r matches Some(x) && x@ == v,
                None => r is None,
            },
        decreases path@.len(),
    {
        let (name, rest) = split_path_once(path);
        proof {
            lemma_first_sep_from(path@, 0);
            lemma_pieces(path@);
            self.lemma_wf();
            lemma_children_map(self.children@);
            match first_sep_from(path@, 0) {
                Some(i) => {
                    lemma_pieces(path@.skip(i + 1));
                    assert(pieces(path@)[0] == name@);
                    assert(pieces(path@).drop_first() =~= pieces(path@.skip(i + 1)));
                },
                None => {},
            }
        }
        let index = match self.binary_search_child(name) {
            Ok(index) => index,
            Err(_) => {
                return None;
            },
        };
        let child = &self.children[index].1;
        assert(self@[name@] == child@);
        match rest {
            Some(rest) => match child {
                Node::Folder(folder) => {
                    assert(node_wf(self.children@[index as int].1));
                    folder.get(rest)
                },
                Node::Item(_) => None,
            },
            None => Some(child),
        }
    }

    /// Inserts `node` at `path`, creating the folders missing on the way,
    /// and returns the node that was there. A path that runs through an
    /// item changes nothing. Assumes a canonical path.
    pub fn insert(&mut self, path: &str, node: Node<T>) -> (r: Option<Node<T>>)
        requires
            old(self).wf(),
            node_wf(node),
            plain_path(path@),
        ensures
            final(self).wf(),
            final(self)@ == put(old(self)@, pieces(path@), node@),
            match view_at(old(self)@, pieces(path@)) {
                Some(v) => r matches Some(x) && x@ == v,
                None => r is None,
            },
        decreases path@.len(),
    {
        let ghost p = pieces(path@);
        let ghost c0 = self.children@;
        let (name, rest) = split_path_once(path);
        proof {
            lemma_first_sep_from(path@, 0);
            lemma_pieces(path@);
            self.lemma_wf();
            lemma_children_map(self.children@);
            lemma_children_wf(self.children@);
            match first_sep_from(path@, 0) {
                Some(i) => {
                    lemma_plain_rest(path@, i);
                    assert(p[0] == name@);
                    assert(p.drop_first() =~= pieces(path@.skip(i + 1)));
                },
                None => {
                    assert(p == seq![path@]);
                },
            }
        }
        match self.binary_search_child(name) {
            Ok(index) => match rest {
                Some(rest) => {
                    let ghost child0 = self.children@[index as int].1;
                    assert(self@[name@] == node_view(child0));
                    let ghost entry_name = self.children@[index as int].0;
                    match &mut self.children[index].1 {
                        Node::Folder(folder) => {
                            assert(node_wf(child0));
                            let r = folder.insert(rest, node);
                            proof {
                                let x = (entry_name, Node::Folder(*folder));
                                assert(self.children@ == c0.update(index as int, x));
                                lemma_children_map_update(c0, index as int, x);
                                lemma_children_wf(self.children@);
                                assert forall|j: int| 0 <= j < self.children@.len() implies node_wf(
                                    #[trigger] self.children@[j].1,
                                ) by {
                                    if j != index {
                                        assert(self.children@[j] == c0[j]);
                                    }
                                }
                            }
                            r
                        },
                        Node::Item(_) => {
                            assert(self.children@ =~= c0);
                            None
                        },
                    }
                },
                None => {
                    let ghost entry_name = self.children@[index as int].0;
                    let mut previous = node;
                    std::mem::swap(&mut self.children[index].1, &mut previous);
                    proof {
                        let x = (entry_name, node);
                        assert(self.children@ == c0.update(index as int, x));
                        lemma_children_map_update(c0, index as int, x);
                        lemma_children_wf(self.children@);
                        assert forall|j: int| 0 <= j < self.children@.len() implies node_wf(
                            #[trigger] self.children@[j].1,
                        ) by {
                            if j != index {
                                assert(self.children@[j] == c0[j]);
                            }
                        }
                    }
                    Some(previous)
                },
            },
            Err(index) => {
                let node = match rest {
                    Some(rest) => {
                        proof {
                            lemma_plain_pieces(rest@);
                        }
                        Node::with_ancestors(rest, node)
                    },
                    None => node,
                };
                let x = (String::from_str(name), node);
                proof {
                    lemma_children_map_insert(c0, index as int, x);
                }
                self.children.insert(index, x);
                proof {
                    lemma_children_wf(self.children@);
                    assert forall|j: int| 0 <= j < self.children@.len() implies node_wf(
                        #[trigger] self.children@[j].1,
                    ) by {
                        if j < index {
                            assert(self.children@[j] == c0[j]);
                        } else if j > index {
                            assert(self.children@[j] == c0[j - 1]);
                        }
                    }
                }
                None
            },
        }
    }

    /// Takes away the node at `path` and returns it. A folder that the
    /// removal leaves empty is taken away too. Assumes a canonical path.
    pub fn remove(&mut self, path: &str) -> (r: Option<Node<T>>)
        requires
            old(self).wf(),
        ensures
            final(self).wf(),
            final(self)@ == take(old(self)@, pieces(path@)),
            match view_at(old(self)@, pieces(path@)) {
                Some(v) => r matches Some(x) && x@ == v,
                None => r is None,
            },
        decreases path@.len(),
    {
        let ghost p = pieces(path@);
        let ghost c0 = self.children@;
        let (name, rest) = split_path_once(path);
        proof {
            lemma_first_sep_from(path@, 0);
            lemma_pieces(path@);
            self.lemma_wf();
            lemma_children_map(self.children@);
            lemma_children_wf(self.children@);
            match first_sep_from(path@, 0) {
                Some(i) => {
                    lemma_pieces(path@.skip(i + 1));
                    assert(p[0] == name@);
                    assert(p.drop_first() =~= pieces(path@.skip(i + 1)));
                },
                None => {
                    assert(p == seq![path@]);
                },
            }
        }
        let index = match self.binary_search_child(name) {
            Ok(index) => index,
            Err(_) => {
                return None;
            },
        };
        match rest {
            Some(rest) => {
                let ghost child0 = self.children@[index as int].1;
                assert(self@[name@] == node_view(child0));
                let ghost entry_name = self.children@[index as int].0;
                let (removed, empty) = match &mut self.children[index].1 {
                    Node::Folder(folder) => {
                        assert(node_wf(child0));
                        let removed = folder.remove(rest);
                        let empty = folder.is_empty();
                        (removed, empty)
                    },
                    Node::Item(_) => (None, false),
                };
                let ghost c1 = self.children@;
                proof {
                    if child0 is Folder {
                        let x = c1[index as int];
                        assert(x.0 == entry_name);
                        lemma_children_map_update(c0, index as int, x);
                        assert(c1 == c0.update(index as int, x));
                        lemma_children_wf(c1);
                        assert forall|j: int| 0 <= j < c1.len() implies node_wf(#[trigger] c1[j].1) by {
                            if j != index {
                                assert(c1[j] == c0[j]);
                            }
                        }
                    } else {
                        assert(c1 =~= c0);
                    }
                }
                if removed.is_some() && empty {
                    self.children.remove(index);
                    proof {
                        lemma_children_map_remove(c1, index as int);
                        lemma_children_map_update(c0, index as int, c1[index as int]);
                        assert(children_map(c1).remove(name@) =~= children_map(c0).remove(name@));
                        lemma_children_wf(self.children@);
                        assert forall|j: int| 0 <= j < self.children@.len() implies node_wf(
                            #[trigger] self.children@[j].1,
                        ) by {
                            if j < index {
                                assert(self.children@[j] == c1[j]);
                            } else {
                                assert(self.children@[j] == c1[j + 1]);
                            }
                        }
                    }
                }
                removed
            },
            None => {
                let (_, node) = self.children.remove(index);
                proof {
                    lemma_children_map_remove(c0, index as int);
                    lemma_children_wf(self.children@);
                    assert forall|j: int| 0 <= j < self.children@.len() implies node_wf(
                        #[trigger] self.children@[j].1,
                    ) by {
                        if j < index {
                            assert(self.children@[j] == c0[j]);
                        } else {
                            assert(self.children@[j] == c0[j + 1]);
                        }
                    }
                }
                Some(node)
            },
        }
    }

    /// The node at `path`, to change in place. Assumes a canonical path.
    pub fn get_mut(&mut self, path: &str) -> (r: Option<&mut Node<T>>)
        requires
            old(self).wf(),
        ensures
            match view_at(old(self)@, pieces(path@)) {
                Some(v) => r matches Some(x) && {
                    &&& x@ == v
                    &&& final(self)@ == put(old(self)@, pieces(path@), final(x)@)
                    &&& node_wf(*final(x)) ==> final(self).wf()
                },
                None => r is None && final(self)@ == old(self)@ && final(self).wf(),
            },
        decreases path@.len(),
    {
        let ghost p = pieces(path@);
        let ghost c0 = self.children@;
        let (name, rest) = split_path_once(path);
        proof {
            lemma_first_sep_from(path@, 0);
            lemma_pieces(path@);
            self.lemma_wf();
            lemma_children_map(self.children@);
            lemma_children_wf(self.children@);
            match first_sep_from(path@, 0) {
                Some(i) => {
                    lemma_pieces(path@.skip(i + 1));
                    assert(p[0] == name@);
                    assert(p.drop_first() =~= pieces(path@.skip(i + 1)));
                },
                None => {
                    assert(p == seq![path@]);
                },
            }
        }
        let index = match self.binary_search_child(name) {
            Ok(index) => index,
            Err(_) => {
                return None;
            },
        };
        let ghost child0 = self.children@[index as int].1;
        let ghost entry_name = self.children@[index as int].0;
        assert(self@[name@] == node_view(child0));
        proof {
            lemma_update_any(c0, index as int);
        }
        match rest {
            Some(rest) => match &mut self.children[index].1 {
                Node::Folder(folder) => {
                    assert(node_wf(child0));
                    folder.get_mut(rest)
                },
                Node::Item(_) => {
                    None
                },
            },
            None => Some(&mut self.children[index].1),
        }
    }

    /// The place of `path`: occupied, vacant, or, when the path runs
    /// through an item, that item's path and the item. Assumes a canonical
    /// path.
    #[verifier::rlimit(80)]
    #[verifier::spinoff_prover]
    pub fn entry<'a, 'p>(&'a mut self, path: &'p str) -> (r: Result<
        Entry<'a, 'p, T>,
        (&'p str, &'a mut Node<T>),
    >)
        requires
            old(self).wf(),
            plain_path(path@),
        ensures
            match r {
                Ok(Entry::Occupied(e)) => {
                    let names = pieces(path@);
                    &&& e.wf()
                    &&& view_at(old(self)@, names) == Some(e.node()@)
                    &&& e.key() == names.last()
                    &&& folder_at(old(self)@, names.drop_last()) == Some(e.folder@)
                    &&& final(self)@ == graft(old(self)@, names.drop_last(), final(e.folder)@)
                    &&& final(e.folder).wf() ==> final(self).wf()
                },
                Ok(Entry::Vacant(e)) => {
                    let names = pieces(path@);
                    let k = names.len() - pieces(e.path@).len();
                    &&& e.wf()
                    &&& view_at(old(self)@, names) is None
                    &&& 0 <= k < names.len()
                    &&& names.skip(k) == pieces(e.path@)
                    &&& folder_at(old(self)@, names.take(k)) == Some(e.folder@)
                    &&& final(self)@ == graft(old(self)@, names.take(k), final(e.folder)@)
                    &&& final(e.folder).wf() ==> final(self).wf()
                },
                Err((prefix, node)) => {
                    let names = pieces(path@);
                    let k = pieces(prefix@).len() as int;
                    &&& prefix@.len() <= path@.len()
                    &&& prefix@ == path@.take(prefix@.len() as int)
                    &&& 0 < k < names.len()
                    &&& names.take(k) == pieces(prefix@)
                    &&& *node is Item
                    &&& view_at(old(self)@, pieces(prefix@)) == Some(node@)
                    &&& view_at(old(self)@, names) is None
                    &&& final(self)@ == put(old(self)@, pieces(prefix@), final(node)@)
                    &&& node_wf(*final(node)) ==> final(self).wf()
                },
            },
        decreases path@.len(),
    {
        let ghost names = pieces(path@);
        let ghost c0 = self.children@;
        let full = path;
        let total = full.unicode_len();
        let (name, rest) = split_path_once(path);
        proof {
            lemma_first_sep_from(path@, 0);
            lemma_pieces(path@);
            self.lemma_wf();
            lemma_children_map(self.children@);
            lemma_children_wf(self.children@);
            match first_sep_from(path@, 0) {
                Some(i) => {
                    lemma_plain_rest(path@, i);
                    assert(names[0] == name@);
                    assert(names.drop_first() =~= pieces(path@.skip(i + 1)));
                },
                None => {
                    assert(names == seq![path@]);
                },
            }
        }
        match self.binary_search_child(name) {
            Ok(index) => {
                let ghost child0 = self.children@[index as int].1;
                assert(self@[name@] == node_view(child0));
                match rest {
                    Some(rest) => {
                        proof {
                            lemma_update_any(c0, index as int);
                        }
                        match &mut self.children[index].1 {
                            Node::Folder(folder) => {
                                assert(node_wf(child0));
                                match folder.entry(rest) {
                                    Ok(entry) => {
                                        proof {
                                            let tail = names.drop_first();
                                            let sub = match node_view(child0) {
                                                NodeView::Folder(sub) => sub,
                                                NodeView::Item(_) => Map::empty(),
                                            };
                                            assert(names =~= seq![name@] + tail);
                                            assert(names.last() == tail.last());
                                            lemma_descend(children_map(c0), name@, sub, tail);
                                            if entry is Occupied {
                                                assert(names.drop_last() =~= seq![name@]
                                                    + tail.drop_last());
                                                lemma_descend(children_map(c0), name@, sub, tail.drop_last());
                                            } else {
                                                {
                                                    let k = names.len() - pieces(
                                                        entry->Vacant_0.path@,
                                                    ).len();
                                                    assert(names.take(k) =~= seq![name@] + tail.take(
                                                        k - 1,
                                                    ));
                                                    assert(names.skip(k) =~= tail.skip(k - 1));
                                                    lemma_descend(children_map(c0), name@, sub, tail.take(k - 1));
                                                }
                                            }
                                        }
                                        Ok(entry)
                                    },
                                    Err((last, node)) => {
                                        let cut = name.unicode_len() + 1 + last.unicode_len();
                                        proof {
                                            assert(last@ == rest@.take(last@.len() as int));
                                            lemma_prefix_pieces(path@, name@.len() as int, last@);
                                            let tail = names.drop_first();
                                            let sub = match node_view(child0) {
                                                NodeView::Folder(sub) => sub,
                                                NodeView::Item(_) => Map::empty(),
                                            };
                                            lemma_descend(children_map(c0), name@, sub, pieces(last@));
                                            lemma_descend(children_map(c0), name@, sub, tail);
                                            assert(names =~= seq![name@] + tail);
                                            let k = pieces(last@).len() as int;
                                            assert(names.take(k + 1) =~= seq![name@] + tail.take(k));
                                        }
                                        Err((full.substring_char(0, cut), node))
                                    },
                                }
                            },
                            node => {
                                proof {
                                    let i = first_sep_from(path@, 0)->Some_0;
                                    assert forall|j: int| 0 <= j < name@.len() implies !is_sep(
                                        #[trigger] name@[j],
                                    ) by {
                                        assert(name@[j] == path@[j]);
                                    }
                                    lemma_first_sep_none(name@, 0);
                                    lemma_no_sep_pieces(name@);
                                    assert(path@.take(name@.len() as int) =~= name@);
                                    assert(names.take(1) =~= seq![name@]);
                                }
                                Err((name, node))
                            },
                        }
                    },
                    None => {
                        proof {
                            assert(self.key_at(index as int) == name@);
                            self.lemma_index(index as int);
                            assert(names.drop_last() =~= Seq::<Seq<char>>::empty());
                        }
                        Ok(Entry::Occupied(OccupiedEntry { folder: self, index }))
                    },
                }
            },
            Err(index) => {
                proof {
                    assert(names.take(0) =~= Seq::<Seq<char>>::empty());
                    assert(names.skip(0) =~= names);
                    assert forall|j: int| 0 <= j < index implies lex_lt(
                        #[trigger] self.key_at(j),
                        names[0],
                    ) by {}
                    assert forall|j: int| index <= j < self.size() implies lex_lt(
                        names[0],
                        #[trigger] self.key_at(j),
                    ) by {}
                }
                Ok(Entry::Vacant(VacantEntry { folder: self, path: full, index }))
            },
        }
    }

    /// Appends the walk below this folder, paths after `prefix`, to `out`.
    fn collect<'a>(&'a self, prefix: &String, out: &mut Vec<(String, &'a Node<T>)>)
        ensures
            walk_view(final(out)@) == walk_view(old(out)@) + self.walk(prefix@),
        decreases self,
    {
        let mut k: usize = 0;
        assert(self.children@.take(0) =~= Seq::<(String, Node<T>)>::empty());
        assert(walk_view(out@) =~= walk_view(old(out)@) + walk_children(self.children@.take(0), prefix@));
        while k < self.children.len()
            invariant
                k <= self.children.len(),
                walk_view(out@) == walk_view(old(out)@) + walk_children(
                    self.children@.take(k as int),
                    prefix@,
                ),
            decreases self.children.len() - k,
        {
            let (name, node) = &self.children[k];
            let mut path = prefix.clone();
            path.append(name.as_str());
            let ghost before = out@;
            out.push((path.clone(), node));
            proof {
                reveal_strlit("/");
                assert("/"@ =~= seq!['/']);
                assert(self.children@.take(k + 1).drop_last() =~= self.children@.take(k as int));
                assert(walk_view(out@) =~= walk_view(before) + seq![(path@, *node)]);
            }
            match node {
                Node::Folder(folder) => {
                    proof {
                        assert(decreases_to!(*self => self.children));
                        assert(decreases_to!(self.children => self.children@));
                        assert(decreases_to!(self.children@ => self.children@[k as int]));
                        assert(decreases_to!(self.children@[k as int] => self.children@[k as int].1));
                    }
                    let mut inner = path;
                    inner.append("/");
                    assert(inner@ == path@ + seq!['/']);
                    folder.collect(&inner, out);
                },
                Node::Item(_) => {},
            }
            proof {
                let c = self.children@.take(k + 1);
                assert(c.last() == self.children@[k as int]);
                assert(path@ == prefix@ + name@);
                assert(walk_view(out@) =~= walk_view(before) + seq![(path@, *node)] + node_walk(
                    *node,
                    path@ + seq!['/'],
                ));
            }
            k += 1;
        }
        assert(self.children@.take(k as int) =~= self.children@);
    }

    /// The walk below this folder from its root, appended to `out`.
    pub(crate) fn collect_all<'a>(&'a self, out: &mut Vec<(String, &'a Node<T>)>)
        ensures
            walk_view(final(out)@) == walk_view(old(out)@) + self.walk(Seq::<char>::empty()),
    {
        let prefix = String::new();
        self.collect(&prefix, out);
    }

    /// Reserves room for `additional` more children in this folder and in
    /// every folder below it.
    pub fn reserve_recursively(&mut self, additional: usize)
        requires
            old(self).wf(),
        ensures
            final(self)@ == old(self)@,
            final(self).wf(),
        decreases *old(self),
    {
        self.children.reserve(additional);
        let ghost c0 = self.children@;
        let mut k: usize = 0;
        while k < self.children.len()
            invariant
                self.wf(),
                self@ == old(self)@,
                self.children@.len() == c0.len(),
                c0 == old(self).children@,
                k <= self.children@.len(),
                forall|j: int| k <= j < c0.len() ==> #[trigger] self.children@[j] == c0[j],
            decreases self.children@.len() - k,
        {
            let ghost ck = self.children@;
            proof {
                self.lemma_wf();
                lemma_children_map(ck);
                lemma_update_any(ck, k as int);
                assert(ck[k as int] == c0[k as int]);
                assert(decreases_to!(*old(self) => old(self).children));
                assert(decreases_to!(old(self).children => old(self).children@));
                assert(decreases_to!(old(self).children@ => old(self).children@[k as int]));
                assert(decreases_to!(old(self).children@[k as int] => old(self).children@[k as int].1));
            }
            match &mut self.children[k].1 {
                Node::Folder(folder) => {
                    folder.reserve_recursively(additional);
                },
                Node::Item(_) => {},
            }
            proof {
                assert(self.children@ == ck.update(k as int, self.children@[k as int]));
                assert(node_view(self.children@[k as int].1) == node_view(ck[k as int].1));
                assert(children_map(ck).insert(ck[k as int].0@, node_view(ck[k as int].1)) =~= children_map(ck));
            }
            k += 1;
        }
    }

    /// Releases spare room in this folder and in every folder below it.
    pub fn shrink_to_fit_recursively(&mut self, )
        requires
            old(self).wf(),
        ensures
            final(self)@ == old(self)@,
            final(self).wf(),
        decreases *old(self),
    {
        crate::std_ext::vec_shrink_to_fit(&mut self.children);
        let ghost c0 = self.children@;
        let mut k: usize = 0;
        while k < self.children.len()
            invariant
                self.wf(),
                self@ == old(self)@,
                self.children@.len() == c0.len(),
                c0 == old(self).children@,
                k <= self.children@.len(),
                forall|j: int| k <= j < c0.len() ==> #[trigger] self.children@[j] == c0[j],
            decreases self.children@.len() - k,
        {
            let ghost ck = self.children@;
            proof {
                self.lemma_wf();
                lemma_children_map(ck);
                lemma_update_any(ck, k as int);
                assert(ck[k as int] == c0[k as int]);
                assert(decreases_to!(*old(self) => old(self).children));
                assert(decreases_to!(old(self).children => old(self).children@));
                assert(decreases_to!(old(self).children@ => old(self).children@[k as int]));
                assert(decreases_to!(old(self).children@[k as int] => old(self).children@[k as int].1));
            }
            match &mut self.children[k].1 {
                Node::Folder(folder) => {
                    folder.shrink_to_fit_recursively();
                },
                Node::Item(_) => {},
            }
            proof {
                assert(self.children@ == ck.update(k as int, self.children@[k as int]));
                assert(node_view(self.children@[k as int].1) == node_view(ck[k as int].1));
                assert(children_map(ck).insert(ck[k as int].0@, node_view(ck[k as int].1)) =~= children_map(ck));
            }
            k += 1;
        }
    }

    /// Number of nodes below this folder, at any depth.
    pub fn len_recursively(&self) -> (n: usize)
        requires
            self.walk(Seq::<char>::empty()).len() <= usize::MAX,
        ensures
            n == self.walk(Seq::<char>::empty()).len(),
        decreases self,
    {
        let ghost e = Seq::<char>::empty();
        proof {
            self.lemma_walk(e);
        }
        let mut total: usize = 0;
        let mut k: usize = 0;
        while k < self.children.len()
            invariant
                e == Seq::<char>::empty(),
                k <= self.children.len(),
                total == walk_upto(*self, e, k as int).len(),
                walk_upto(*self, e, self.children@.len() as int).len() <= usize::MAX,
            decreases self.children.len() - k,
        {
            proof {
                lemma_walk_upto_mono(*self, e, k as int + 1, self.children@.len() as int);
                let path = e + self.key_at(k as int);
                assert(walk_upto(*self, e, k + 1) == walk_upto(*self, e, k as int) + seq![
                    (path, self.node_at_index(k as int)),
                ] + node_walk(self.node_at_index(k as int), path + seq!['/']));
                assert(self.node_at_index(k as int) == self.children@[k as int].1);
            }
            let below = match &self.children[k].1 {
                Node::Folder(folder) => {
                    proof {
                        assert(decreases_to!(*self => self.children));
                        assert(decreases_to!(self.children => self.children@));
                        assert(decreases_to!(self.children@ => self.children@[k as int]));
                        assert(decreases_to!(self.children@[k as int] => self.children@[k as int].1));
                        let path = e + self.key_at(k as int);
                        lemma_walk_len(*folder, e, path + seq!['/']);
                        assert(node_walk(self.node_at_index(k as int), path + seq!['/']) == folder.walk(
                            path + seq!['/'],
                        ));
                        assert(folder.walk(e).len() <= walk_upto(*self, e, k + 1).len());
                    }
                    folder.len_recursively()
                },
                Node::Item(_) => 0,
            };
            total = total + 1 + below;
            k += 1;
        }
        total
    }

    /// Every node below this folder in pre-order, with its path.
    pub fn iter_recursively(&self) -> (r: Iter<'_, T>)
        ensures
            r@ == self.walk(Seq::<char>::empty()),
    {
        Iter::new(self)
    }

    /// Every node below this folder in pre-order, with its path, handed
    /// out to change in place one at a time.
    pub fn iter_mut_recursively(&mut self) -> (r: IterMut<'_, T>)
        ensures
            r.wf(),
            r.tree() == *old(self),
            r.route().len() == 0,
            !r.started(),
            *final(self) == *final(r.root),
    {
        IterMut::new(self)
    }

    /// Whether a node is at `path`. Assumes a canonical path.
    pub fn contains(&self, path: &str) -> (b: bool)
        requires
            self.wf(),
        ensures
            b == lookup(self@, path@) is Some,
    {
        self.get(path).is_some()
    }

    /// A folder of the items of `vec`, each at its path, folders made on
    /// the way. Of several items with one path the first stays; an empty
    /// path names no node and is passed over. Assumes canonical paths.
    pub fn from_vec(vec: Vec<(String, T)>) -> (r: Self)
        requires
            forall|i: int| 0 <= i < vec@.len() ==> #[trigger] vec@[i].0@.len() == 0 || plain_path(vec@[i].0@),
        ensures
            r.wf(),
            r@ == planted_all(path_items(vec@)),
    {
        let ghost items = path_items(vec@);
        let n = vec.len();
        let mut pending = vec;
        let mut reversed: Vec<(String, T)> = Vec::new();
        while pending.len() > 0
            invariant
                n == items.len(),
                pending@.len() + reversed@.len() == n,
                forall|j: int| 0 <= j < pending@.len() ==> path_items(pending@)[j] == #[trigger] items[j],
                forall|j: int| 0 <= j < reversed@.len() ==> path_items(reversed@)[j] == #[trigger] items[n - 1 - j],
            decreases pending@.len(),
        {
            let ghost before = pending@;
            let item = pending.pop().unwrap();
            assert(path_items(before)[before.len() - 1] == (item.0@, item.1));
            reversed.push(item);
        }
        let mut root = Folder::new();
        assert(items.take(0) =~= Seq::<(Seq<char>, T)>::empty());
        while reversed.len() > 0
            invariant
                n == items.len(),
                reversed@.len() <= n,
                forall|j: int| 0 <= j < reversed@.len() ==> path_items(reversed@)[j] == #[trigger] items[n - 1 - j],
                forall|i: int| 0 <= i < n ==> #[trigger] items[i].0.len() == 0 || plain_path(items[i].0),
                root.wf(),
                root@ == planted_all(items.take(n - reversed@.len())),
            decreases reversed@.len(),
        {
            let ghost k = n - reversed@.len();
            let ghost before = reversed@;
            let (path, item) = reversed.pop().unwrap();
            assert(path_items(before)[before.len() - 1] == (path@, item));
            assert(path_items(before)[before.len() - 1] == items[n - 1 - (before.len() - 1)]);
            assert(items[k] == (path@, item));
            assert(items[k].0.len() == 0 || plain_path(items[k].0));
            assert(items.take(k + 1).drop_last() =~= items.take(k));
            assert(items.take(k + 1).last() == items[k]);
            if path.as_str().unicode_len() > 0 && !root.contains(path.as_str()) {
                root.insert(path.as_str(), Node::Item(item));
            }
        }
        assert(items.take(n as int) =~= items);
        root
    }
}

/// The paths of `v` as character sequences, with their items.
pub open spec fn path_items<T>(v: Seq<(String, T)>) -> Seq<(Seq<char>, T)> {
    v.map_values(|e: (String, T)| (e.0@, e.1))
}

/// The children that putting the items of `s` one after the other at
/// their paths makes: a path already taken, or empty, is passed over.
pub open spec fn planted_all<T>(s: Seq<(Seq<char>, T)>) -> Map<Seq<char>, NodeView<T>>
    decreases s.len(),
{
    if s.len() == 0 {
        Map::empty()
    } else {
        let m = planted_all(s.drop_last());
        let p = s.last().0;
        if p.len() == 0 || lookup(m, p) is Some {
            m
        } else {
            put(m, pieces(p), NodeView::Item(s.last().1))
        }
    }
}


/// Borrows the nodes of `s` for change in place, each with its name.
fn child_refs<'a, T>(s: &'a mut [(String, Node<T>)]) -> (r: Vec<(&'a str, &'a mut Node<T>)>)
    ensures
        r@.len() == old(s)@.len(),
        forall|i: int| 0 <= i < r@.len() ==> (#[trigger] r@[i]).0@ == old(s)@[i].0@,
        forall|i: int| 0 <= i < r@.len() ==> *(#[trigger] r@[i]).1 == old(s)@[i].1,
        final(s)@.len() == old(s)@.len(),
        forall|i: int| 0 <= i < r@.len() ==> (#[trigger] final(s)@[i]).0 == old(s)@[i].0,
        forall|i: int| 0 <= i < r@.len() ==> (#[trigger] final(s)@[i]).1 == *final(r@[i].1),
    decreases old(s)@.len(),
{
    if s.len() == 0 {
        return Vec::new();
    }
    let (head, tail) = s.split_at_mut(1);
    let pair = &mut head[0];
    let (name, node) = pair;
    let mut r = child_refs(tail);
    r.insert(0, (name.as_str(), node));
    r
}

/// The node at the positions `route` below `f`, one position a level.
pub closed spec fn node_at<T>(f: Folder<T>, route: Seq<usize>) -> Option<Node<T>>
    decreases route.len(),
{
    if route.len() == 0 || route[0] >= f.children@.len() {
        None
    } else if route.len() == 1 {
        Some(f.children@[route[0] as int].1)
    } else {
        match f.children@[route[0] as int].1 {
            Node::Folder(g) => node_at(g, route.drop_first()),
            Node::Item(_) => None,
        }
    }
}

/// The names along `route` below `f`, joined by `/`.
pub closed spec fn path_at<T>(f: Folder<T>, route: Seq<usize>) -> Seq<char>
    decreases route.len(),
{
    if route.len() == 0 || route[0] >= f.children@.len() {
        Seq::empty()
    } else if route.len() == 1 {
        f.children@[route[0] as int].0@
    } else {
        match f.children@[route[0] as int].1 {
            Node::Folder(g) => f.children@[route[0] as int].0@ + seq!['/'] + path_at(g, route.drop_first()),
            Node::Item(_) => Seq::empty(),
        }
    }
}

/// The number of children of the folder at `route` below `f` (`f` itself
/// for the empty route); none where no folder is.
pub closed spec fn size_at<T>(f: Folder<T>, route: Seq<usize>) -> Option<nat> {
    if route.len() == 0 {
        Some(f.children@.len())
    } else {
        match node_at(f, route) {
            Some(Node::Folder(g)) => Some(g.children@.len()),
            _ => None,
        }
    }
}

/// `g` is `f` with the node at `route` become `n`, all else the same.
pub closed spec fn replaced<T>(f: Folder<T>, g: Folder<T>, route: Seq<usize>, n: Node<T>) -> bool
    decreases route.len(),
{
    &&& route.len() >= 1
    &&& route[0] < f.children@.len()
    &&& g.children@.len() == f.children@.len()
    &&& forall|j: int| 0 <= j < f.children@.len() && j != route[0] ==> #[trigger] g.children@[j] == f.children@[j]
    &&& g.children@[route[0] as int].0 == f.children@[route[0] as int].0
    &&& if route.len() == 1 {
        g.children@[route[0] as int].1 == n
    } else {
        match (f.children@[route[0] as int].1, g.children@[route[0] as int].1) {
            (Node::Folder(a), Node::Folder(b)) => replaced(a, b, route.drop_first(), n),
            _ => false,
        }
    }
}

/// After the node at `route` changed, a node is still there: the new one,
/// with the same names on the way, and folders on the way still folders.
pub proof fn lemma_replaced<T>(f: Folder<T>, g: Folder<T>, route: Seq<usize>, n: Node<T>)
    requires
        replaced(f, g, route, n),
    ensures
        node_at(g, route) == Some(n),
        path_at(g, route) == path_at(f, route),
        forall|k: int| 0 <= k < route.len() ==> (#[trigger] size_at(g, route.take(k))) == size_at(f, route.take(k)),
    decreases route.len(),
{
    let i = route[0] as int;
    if route.len() > 1 {
        match (f.children@[i].1, g.children@[i].1) {
            (Node::Folder(a), Node::Folder(b)) => {
                lemma_replaced(a, b, route.drop_first(), n);
                assert forall|k: int| 0 <= k < route.len() implies (#[trigger] size_at(g, route.take(k))) == size_at(f, route.take(k)) by {
                    if k >= 1 {
                        let t = route.take(k);
                        assert(t.drop_first() =~= route.drop_first().take(k - 1));
                        if k >= 2 {
                            assert(size_at(b, route.drop_first().take(k - 1)) == size_at(a, route.drop_first().take(k - 1)));
                        }
                    }
                }
            },
            _ => {},
        }
    } else {
        assert forall|k: int| 0 <= k < route.len() implies (#[trigger] size_at(g, route.take(k))) == size_at(f, route.take(k)) by {
            assert(k == 0);
        }
    }
}

/// A node lies in a folder: its parent route ends at a folder that has
/// the node's position.
pub proof fn lemma_node_at_parent<T>(f: Folder<T>, route: Seq<usize>)
    requires
        node_at(f, route) is Some,
    ensures
        route.len() >= 1,
        size_at(f, route.drop_last()) matches Some(n) && route.last() < n,
        route.len() > 1 ==> node_at(f, route.drop_last()) is Some,
    decreases route.len(),
{
    if route.len() > 1 {
        match f.children@[route[0] as int].1 {
            Node::Folder(g) => {
                lemma_node_at_parent(g, route.drop_first());
                assert(route.drop_first().drop_last() =~= route.drop_last().drop_first());
                if route.len() > 2 {
                    assert(route.drop_last()[0] == route[0]);
                    assert(node_at(f, route.drop_last()) == node_at(g, route.drop_last().drop_first()));
                } else {
                    assert(route.drop_last() =~= seq![route[0]]);
                }
            },
            Node::Item(_) => {},
        }
    }
}

/// Each position of a folder holds a node.
pub proof fn lemma_node_at_child<T>(f: Folder<T>, route: Seq<usize>, j: usize)
    requires
        size_at(f, route) matches Some(n) && j < n,
    ensures
        node_at(f, route.push(j)) is Some,
    decreases route.len(),
{
    if route.len() == 0 {
        assert(route.push(j) =~= seq![j]);
    } else {
        let i = route[0] as int;
        assert(route.push(j)[0] == route[0]);
        assert(route.push(j).drop_first() =~= route.drop_first().push(j));
        match f.children@[i].1 {
            Node::Folder(g) => {
                if route.len() == 1 {
                    assert(route.drop_first() =~= Seq::<usize>::empty());
                } else {
                    assert(node_at(f, route) == node_at(g, route.drop_first()));
                }
                lemma_node_at_child(g, route.drop_first(), j);
            },
            Node::Item(_) => {},
        }
    }
}

impl<T> Folder<T> {
    /// The node at positions `route[k..]` below this folder.
    pub(crate) fn node_at_route(&self, route: &Vec<usize>, k: usize) -> (r: &Node<T>)
        requires
            k < route@.len(),
            node_at(*self, route@.skip(k as int)) is Some,
        ensures
            Some(*r) == node_at(*self, route@.skip(k as int)),
        decreases route@.len() - k,
    {
        let i = route[k];
        let child = &self.children[i].1;
        let ghost rest = route@.skip(k as int);
        assert(rest[0] == i);
        if k == route.len() - 1 {
            child
        } else {
            assert(rest.drop_first() =~= route@.skip(k + 1));
            match child {
                Node::Folder(g) => g.node_at_route(route, k + 1),
                Node::Item(_) => unreached(),
            }
        }
    }

    /// The node at positions `route[k..]` below this folder, to change in
    /// place.
    pub(crate) fn node_at_route_mut(&mut self, route: &Vec<usize>, k: usize) -> (r: &mut Node<T>)
        requires
            k < route@.len(),
            node_at(*old(self), route@.skip(k as int)) is Some,
        ensures
            Some(*r) == node_at(*old(self), route@.skip(k as int)),
            replaced(*old(self), *final(self), route@.skip(k as int), *final(r)),
            node_at(*final(self), route@.skip(k as int)) == Some(*final(r)),
        decreases route@.len() - k,
    {
        let i = route[k];
        let ghost rest = route@.skip(k as int);
        assert(rest[0] == i);
        let child = &mut self.children[i].1;
        if k == route.len() - 1 {
            child
        } else {
            assert(rest.drop_first() =~= route@.skip(k + 1));
            match child {
                Node::Folder(g) => g.node_at_route_mut(route, k + 1),
                Node::Item(_) => unreached(),
            }
        }
    }

    /// The number of children of the folder at `route`, if a folder is
    /// there.
    pub(crate) fn size_at_route(&self, route: &Vec<usize>) -> (r: Option<usize>)
        requires
            route@.len() == 0 || node_at(*self, route@) is Some || size_at(*self, route@) is Some,
        ensures
            match r {
                Some(m) => size_at(*self, route@) == Some(m as nat),
                None => size_at(*self, route@) is None,
            },
    {
        if route.len() == 0 {
            return Some(self.children.len());
        }
        assert(route@.skip(0) =~= route@);
        match self.node_at_route(route, 0) {
            Node::Folder(g) => Some(g.children.len()),
            Node::Item(_) => None,
        }
    }

    /// The names along positions `route[k..]` below this folder, joined by
    /// `/`.
    pub(crate) fn path_at_route(&self, route: &Vec<usize>, k: usize) -> (r: String)
        requires
            k < route@.len(),
            node_at(*self, route@.skip(k as int)) is Some,
        ensures
            r@ == path_at(*self, route@.skip(k as int)),
        decreases route@.len() - k,
    {
        let i = route[k];
        let ghost rest = route@.skip(k as int);
        assert(rest[0] == i);
        let (name, child) = &self.children[i];
        if k == route.len() - 1 {
            name.clone()
        } else {
            assert(rest.drop_first() =~= route@.skip(k + 1));
            match child {
                Node::Folder(g) => {
                    let below = g.path_at_route(route, k + 1);
                    let mut out = name.clone();
                    out.append("/");
                    out.append(below.as_str());
                    proof {
                        reveal_strlit("/");
                    }
                    out
                },
                Node::Item(_) => unreached(),
            }
        }
    }
}

} // verus!
