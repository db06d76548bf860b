//! Access to the place of a path in a folder, whether a node is there or
//! not.

use vstd::prelude::*;
use vstd::pervasive::unreached;
use vstd::string::{StrSliceExecFns, StringExecFns};
use crate::path_tree::folder::{Folder, NodeView, node_wf, chain};
use crate::path_tree::node::Node;
use crate::path_tree::util::{
    split_path_once, pieces, plain_path, first_sep_from, lemma_plain_rest, lemma_plain_pieces,
    lemma_pieces, lemma_first_sep_from,
};

verus! {

broadcast use vstd::string::group_string_axioms;

/// The place of a path: a node is there, or it is vacant.
#[derive(Debug)]
pub enum Entry<'a, 'p, T> {
    Occupied(OccupiedEntry<'a, T>),
    Vacant(VacantEntry<'a, 'p, T>),
}

/// A place where a node is: child `index` of `folder`.
#[derive(Debug)]
pub struct OccupiedEntry<'a, T> {
    pub folder: &'a mut Folder<T>,
    pub index: usize,
}

/// A vacant place: `path` continues below `folder`, its first name going
/// at position `index`.
#[derive(Debug)]
pub struct VacantEntry<'a, 'p, T> {
    pub folder: &'a mut Folder<T>,
    pub path: &'p str,
    pub index: usize,
}

/// What a vacant place `path` receives for `v`: `v` itself, or the chain of
/// folders that leads to it.
pub open spec fn planted<T>(path: Seq<char>, v: NodeView<T>) -> NodeView<T> {
    if pieces(path).len() == 1 {
        v
    } else {
        chain(pieces(path).drop_first(), v)
    }
}

impl<'a, T> OccupiedEntry<'a, T> {
    /// The entry points at a child of a well-formed folder.
    pub open spec fn wf(&self) -> bool {
        self.folder.wf() && self.index < self.folder.size()
    }

    /// Name of the node.
    pub open spec fn key(&self) -> Seq<char> {
        self.folder.key_at(self.index as int)
    }

    /// The node.
    pub open spec fn node(&self) -> Node<T> {
        self.folder.node_at_index(self.index as int)
    }

    /// The node.
    pub fn get(&self) -> (r: &Node<T>)
        requires
            self.wf(),
        ensures
            *r == self.node(),
    {
        self.folder.child(self.index)
    }

    /// The node, to change in place.
    pub fn get_mut(&mut self) -> (r: &mut Node<T>)
        requires
            old(self).wf(),
        ensures
            *r == old(self).node(),
            final(self).index == old(self).index,
            final(self).folder@ == old(self).folder@.insert(old(self).key(), final(r)@),
            final(self).key() == old(self).key(),
            final(self).node() == *final(r),
            node_wf(*final(r)) ==> final(self).wf(),
    {
        self.folder.child_mut(self.index)
    }

    /// The node, to change in place for as long as the folder is borrowed.
    pub fn into_mut(self) -> (r: &'a mut Node<T>)
        requires
            self.wf(),
        ensures
            *r == self.node(),
            final(self.folder)@ == old(self.folder)@.insert(self.key(), final(r)@),
            node_wf(*final(r)) ==> final(self.folder).wf(),
    {
        self.folder.child_mut(self.index)
    }

    /// Puts `node` in place of the node and returns the node.
    pub fn insert(&mut self, node: Node<T>) -> (r: Node<T>)
        requires
            old(self).wf(),
            node_wf(node),
        ensures
            r == old(self).node(),
            final(self).folder@ == old(self).folder@.insert(old(self).key(), node@),
            final(self).wf(),
            final(self).key() == old(self).key(),
            final(self).node() == node,
    {
        let slot = self.folder.child_mut(self.index);
        let mut node = node;
        std::mem::swap(slot, &mut node);
        node
    }

    /// Takes the node away from the folder.
    pub fn remove(self) -> (r: Node<T>)
        requires
            self.wf(),
        ensures
            r == self.node(),
            final(self.folder)@ == old(self.folder)@.remove(self.key()),
            final(self.folder).wf(),
    {
        self.folder.remove_at(self.index)
    }
}

impl<'a, 'p, T> VacantEntry<'a, 'p, T> {
    /// The entry's path is plain and its first name goes at `index`.
    pub open spec fn wf(&self) -> bool {
        &&& self.folder.wf()
        &&& plain_path(self.path@)
        &&& self.folder.gap(self.index as int, pieces(self.path@)[0])
    }

    /// The name under which the folder receives the new node.
    pub open spec fn key(&self) -> Seq<char> {
        pieces(self.path@)[0]
    }

    /// Puts `node` at the plain `path` below `folder`, the first name of
    /// the path going at position `index` and new folders made where the
    /// path continues; hands back the folder that holds `node` and its
    /// position there.
    fn plant<'b>(folder: &'b mut Folder<T>, index: usize, path: &str, node: Node<T>) -> (r: (
        &'b mut Folder<T>,
        usize,
    ))
        requires
            old(folder).wf(),
            plain_path(path@),
            old(folder).gap(index as int, pieces(path@)[0]),
            node_wf(node),
        ensures
            r.0.wf(),
            r.1 < r.0.size(),
            r.0.key_at(r.1 as int) == pieces(path@).last(),
            r.0.node_at_index(r.1 as int) == node,
            r.0@ == landing(old(folder)@, path@, node@),
            final(folder)@ == grown(old(folder)@, path@, final(r.0)@),
            final(r.0).wf() ==> final(folder).wf(),
        decreases path@.len(),
    {
        let (name, rest) = split_path_once(path);
        proof {
            lemma_pieces(path@);
            lemma_first_sep_from(path@, 0);
        }
        match rest {
            None => {
                folder.insert_at(index, String::from_str(name), node);
                (folder, index)
            },
            Some(rest) => {
                let ghost i = first_sep_from(path@, 0)->Some_0;
                proof {
                    lemma_plain_rest(path@, i);
                    lemma_plain_pieces(rest@);
                    lemma_pieces(rest@);
                    assert(pieces(path@).drop_first() =~= pieces(rest@));
                }
                let empty = Folder::new();
                proof {
                    empty.lemma_listing();
                }
                folder.insert_at(index, String::from_str(name), Node::Folder(empty));
                let child = folder.child_mut(index);
                match child {
                    Node::Folder(sub) => {
                        let r = Self::plant(sub, 0, rest, node);
                        proof {
                            let ps = pieces(path@);
                            let qs = pieces(rest@);
                            assert(qs.last() == ps.last());
                            let mid = ps.drop_first().drop_last();
                            if qs.len() == 1 {
                                assert(mid =~= Seq::<Seq<char>>::empty());
                            } else {
                                assert(mid.len() > 0);
                                assert(mid[0] == qs[0]);
                                assert(mid.drop_first() =~= qs.drop_first().drop_last());
                            }
                        }
                        r
                    },
                    Node::Item(_) => unreached(),
                }
            },
        }
    }

    /// Puts `node` at the entry's path (below new folders where the path
    /// continues) and returns the node where it now stands.
    pub fn insert(self, node: Node<T>) -> (r: &'a mut Node<T>)
        requires
            self.wf(),
            node_wf(node),
        ensures
            *r == node,
            final(self.folder)@ == old(self.folder)@.insert(self.key(), planted(self.path@, final(r)@)),
            node_wf(*final(r)) ==> final(self.folder).wf(),
    {
        let ghost before = *self.folder;
        let VacantEntry { folder, path, index } = self;
        let (holder, at) = Self::plant(folder, index, path, node);
        let r = holder.child_mut(at);
        proof {
            lemma_landing(before@, path@, node@, final(r)@);
        }
        r
    }

    /// Puts `node` at the entry's path and returns the now occupied entry,
    /// which stands at the node.
    pub fn insert_entry(self, node: Node<T>) -> (r: OccupiedEntry<'a, T>)
        requires
            self.wf(),
            node_wf(node),
        ensures
            r.wf(),
            r.key() == pieces(self.path@).last(),
            r.node() == node,
            r.folder@ == landing(old(self.folder)@, self.path@, node@),
            final(self.folder)@ == grown(old(self.folder)@, self.path@, final(r.folder)@),
            final(r.folder).wf() ==> final(self.folder).wf(),
    {
        let VacantEntry { folder, path, index } = self;
        let (holder, at) = Self::plant(folder, index, path, node);
        OccupiedEntry { folder: holder, index: at }
    }
}

/// The children of the folder that holds the node `v` just put at the
/// vacant `path` of children `m`: `m` with `v` when the path is one name,
/// else the deepest new folder, which holds `v` alone.
pub open spec fn landing<T>(m: Map<Seq<char>, NodeView<T>>, path: Seq<char>, v: NodeView<T>) -> Map<
    Seq<char>,
    NodeView<T>,
> {
    if pieces(path).len() == 1 {
        m.insert(pieces(path)[0], v)
    } else {
        Map::empty().insert(pieces(path).last(), v)
    }
}

/// The children `m` once the folder that holds the node of the vacant
/// `path` has the children `g`: `g` when the path is one name, else `m`
/// with the chain of new folders that ends in `g`.
pub open spec fn grown<T>(m: Map<Seq<char>, NodeView<T>>, path: Seq<char>, g: Map<
    Seq<char>,
    NodeView<T>,
>) -> Map<Seq<char>, NodeView<T>> {
    if pieces(path).len() == 1 {
        g
    } else {
        m.insert(pieces(path)[0], chain(pieces(path).drop_first().drop_last(), NodeView::Folder(g)))
    }
}

/// A chain of folders that ends in a folder holding `v` alone under `x`
/// is the chain one name longer that ends in `v`.
proof fn lemma_chain_push<T>(names: Seq<Seq<char>>, x: Seq<char>, v: NodeView<T>)
    ensures
        chain(names, NodeView::Folder(Map::empty().insert(x, v))) == chain(names.push(x), v),
    decreases names.len(),
{
    let longer = names.push(x);
    if names.len() == 0 {
        assert(longer.drop_first() =~= Seq::<Seq<char>>::empty());
        assert(chain(longer.drop_first(), v) == v);
        assert(longer[0] == x);
    } else {
        lemma_chain_push(names.drop_first(), x, v);
        assert(longer.drop_first() =~= names.drop_first().push(x));
        assert(longer[0] == names[0]);
    }
}

/// When the node put at a vacant `path` becomes `w`, the children are `m`
/// with what `path` receives for `w`.
proof fn lemma_landing<T>(m: Map<Seq<char>, NodeView<T>>, path: Seq<char>, v: NodeView<T>, w: NodeView<T>)
    requires
        pieces(path).len() >= 1,
    ensures
        grown(m, path, landing(m, path, v).insert(pieces(path).last(), w)) == m.insert(
            pieces(path)[0],
            planted(path, w),
        ),
{
    let ps = pieces(path);
    if ps.len() == 1 {
        assert(landing(m, path, v).insert(ps.last(), w) =~= m.insert(ps[0], w));
    } else {
        assert(landing(m, path, v).insert(ps.last(), w) =~= Map::empty().insert(ps.last(), w));
        lemma_chain_push(ps.drop_first().drop_last(), ps.last(), w);
        assert(ps.drop_first().drop_last().push(ps.last()) =~= ps.drop_first());
    }
}

impl<'a, 'p, T> Entry<'a, 'p, T> {
    /// The entry is well formed.
    pub open spec fn wf(&self) -> bool {
        match self {
            Entry::Occupied(e) => e.wf(),
            Entry::Vacant(e) => e.wf(),
        }
    }

    /// The node there, or `default` put there.
    pub fn or_insert(self, default: Node<T>) -> (r: &'a mut Node<T>)
        requires
            self.wf(),
            node_wf(default),
        ensures
            match self {
                Entry::Occupied(e) => {
                    &&& *r == e.node()
                    &&& final(e.folder)@ == e.folder@.insert(e.key(), final(r)@)
                    &&& node_wf(*final(r)) ==> final(e.folder).wf()
                },
                Entry::Vacant(e) => {
                    &&& *r == default
                    &&& final(e.folder)@ == e.folder@.insert(e.key(), planted(e.path@, final(r)@))
                    &&& node_wf(*final(r)) ==> final(e.folder).wf()
                },
            },
    {
        match self {
            Entry::Occupied(entry) => entry.into_mut(),
            Entry::Vacant(entry) => entry.insert(default),
        }
    }

    /// The entry, after `f` has changed the node in place when there is one.
    pub fn and_modify<F: FnOnce(&mut Node<T>)>(self, f: F) -> (r: Self)
        requires
            self.wf(),
            forall|m: &mut Node<T>| f.requires((m,)),
        ensures
            match self {
                Entry::Occupied(e) => r is Occupied && exists|m: &mut Node<T>|
                    {
                        &&& *m == e.node()
                        &&& f.ensures((m,), ())
                        &&& r->Occupied_0.key() == e.key()
                        &&& r->Occupied_0.node() == *final(m)
                        &&& r->Occupied_0.folder@ == e.folder@.insert(e.key(), final(m)@)
                        &&& node_wf(*final(m)) ==> r.wf()
                    },
                Entry::Vacant(e) => r == self,
            },
    {
        match self {
            Entry::Occupied(mut entry) => {
                let m = entry.get_mut();
                f(m);
                Entry::Occupied(entry)
            },
            Entry::Vacant(entry) => Entry::Vacant(entry),
        }
    }

    /// The node there, or what `default` makes put there.
    pub fn or_insert_with<F: FnOnce() -> Node<T>>(self, default: F) -> (r: &'a mut Node<T>)
        requires
            self.wf(),
            default.requires(()),
            forall|n: Node<T>| default.ensures((), n) ==> node_wf(n),
        ensures
            match self {
                Entry::Occupied(e) => {
                    &&& *r == e.node()
                    &&& final(e.folder)@ == e.folder@.insert(e.key(), final(r)@)
                    &&& node_wf(*final(r)) ==> final(e.folder).wf()
                },
                Entry::Vacant(e) => {
                    &&& default.ensures((), *r)
                    &&& final(e.folder)@ == e.folder@.insert(e.key(), planted(e.path@, final(r)@))
                    &&& node_wf(*final(r)) ==> final(e.folder).wf()
                },
            },
    {
        match self {
            Entry::Occupied(entry) => entry.into_mut(),
            Entry::Vacant(entry) => {
                let node = default();
                entry.insert(node)
            },
        }
    }

    /// Puts `node` at the entry's place and returns the occupied entry.
    pub fn insert_entry(self, node: Node<T>) -> (r: OccupiedEntry<'a, T>)
        requires
            self.wf(),
            node_wf(node),
        ensures
            r.wf(),
            match self {
                Entry::Occupied(e) => {
                    &&& r.key() == e.key()
                    &&& r.node() == node
                    &&& r.folder@ == e.folder@.insert(e.key(), node@)
                    &&& *final(e.folder) == *final(r.folder)
                },
                Entry::Vacant(e) => {
                    &&& r.key() == pieces(e.path@).last()
                    &&& r.node() == node
                    &&& r.folder@ == landing(e.folder@, e.path@, node@)
                    &&& final(e.folder)@ == grown(e.folder@, e.path@, final(r.folder)@)
                    &&& final(r.folder).wf() ==> final(e.folder).wf()
                },
            },
    {
        match self {
            Entry::Occupied(entry) => {
                let OccupiedEntry { folder, index } = entry;
                let slot = folder.child_mut(index);
                let mut node = node;
                std::mem::swap(slot, &mut node);
                OccupiedEntry { folder, index }
            },
            Entry::Vacant(entry) => entry.insert_entry(node),
        }
    }
}

} // verus!
