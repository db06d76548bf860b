//! Walking every node below a folder.

use vstd::prelude::*;
use crate::path_tree::folder::{
    Folder, walk_view, node_at, path_at, size_at, replaced, lemma_node_at_parent,
    lemma_node_at_child,
};
use crate::path_tree::node::Node;

verus! {

/// The nodes below a folder in pre-order, each with its path from the
/// folder; the folder itself is not among them.
#[derive(Debug)]
pub struct Iter<'a, T> {
    /// What is still to come, last first.
    pending: Vec<(String, &'a Node<T>)>,
}

impl<'a, T> View for Iter<'a, T> {
    type V = Seq<(Seq<char>, Node<T>)>;

    /// What is still to come, in order.
    closed spec fn view(&self) -> Seq<(Seq<char>, Node<T>)> {
        walk_view(self.pending@).reverse()
    }
}

impl<'a, T> Iter<'a, T> {
    /// The walk below `folder`.
    pub fn new(folder: &'a Folder<T>) -> (r: Self)
        ensures
            r@ == folder.walk(Seq::<char>::empty()),
    {
        let mut all: Vec<(String, &'a Node<T>)> = Vec::new();
        folder.collect_all(&mut all);
        let mut pending: Vec<(String, &'a Node<T>)> = Vec::new();
        let ghost seq = walk_view(all@);
        while all.len() > 0
            invariant
                walk_view(all@) + walk_view(pending@).reverse() == seq,
            decreases all.len(),
        {
            let ghost before = all@;
            let last = all.pop().unwrap();
            pending.push(last);
            proof {
                assert(walk_view(before) =~= walk_view(all@).push((last.0@, *last.1)));
                assert(walk_view(pending@).reverse() =~= seq![(last.0@, *last.1)] + walk_view(
                    pending@.drop_last(),
                ).reverse());
                assert(walk_view(all@) + walk_view(pending@).reverse() =~= walk_view(before)
                    + walk_view(pending@.drop_last()).reverse());
            }
        }
        assert(walk_view(all@) =~= Seq::<(Seq<char>, Node<T>)>::empty());
        Iter { pending }
    }

    /// The next node with its path, if any is left.
    pub fn next(&mut self) -> (r: Option<(String, &'a Node<T>)>)
        ensures
            old(self)@.len() == 0 ==> r is None && final(self)@ == old(self)@,
            old(self)@.len() > 0 ==> {
                &&& r matches Some(p) && (p.0@, *p.1) == old(self)@[0]
                &&& final(self)@ == old(self)@.drop_first()
            },
    {
        let ghost before = self.pending@;
        let r = self.pending.pop();
        proof {
            if before.len() > 0 {
                assert(walk_view(before) =~= walk_view(self.pending@).push(
                    (r->Some_0.0@, *r->Some_0.1),
                ));
                assert(walk_view(before).reverse() =~= seq![(r->Some_0.0@, *r->Some_0.1)]
                    + walk_view(self.pending@).reverse());
            }
        }
        r
    }
}

/// The route after `route` in pre-order below `f` that leaves the node at
/// `route` aside: the next position of its folder, or else of a folder
/// above.
pub open spec fn advance<T>(f: Folder<T>, route: Seq<usize>) -> Option<Seq<usize>>
    decreases route.len(),
{
    if route.len() == 0 {
        None
    } else if size_at(f, route.drop_last()) matches Some(n) && route.last() + 1 < n {
        Some(route.drop_last().push((route.last() + 1) as usize))
    } else {
        advance(f, route.drop_last())
    }
}

/// The route of the next node in pre-order below `f`, after the node at
/// `route` (before any node when not `started`): its first child when it
/// is a folder with children, else as `advance` goes on.
pub open spec fn next_route<T>(f: Folder<T>, route: Seq<usize>, started: bool) -> Option<Seq<usize>> {
    if !started {
        if size_at(f, Seq::empty()) matches Some(n) && n > 0 {
            Some(seq![0usize])
        } else {
            None
        }
    } else if route.len() == 0 {
        None
    } else if size_at(f, route) matches Some(n) && n > 0 {
        Some(route.push(0))
    } else {
        advance(f, route)
    }
}

/// The nodes below a folder in pre-order, each with its path from the
/// folder, handed out to change in place one at a time. The walk goes on
/// from the tree as it is at each step: below a node only once the caller
/// is done with it.
#[derive(Debug)]
pub struct IterMut<'a, T> {
    pub root: &'a mut Folder<T>,
    pub route: Vec<usize>,
    pub started: bool,
}

impl<'a, T> IterMut<'a, T> {
    /// The tree walked.
    pub open spec fn tree(&self) -> Folder<T> {
        *self.root
    }

    /// Positions, level by level, of the node handed out last.
    pub open spec fn route(&self) -> Seq<usize> {
        self.route@
    }

    /// Whether the walk has begun.
    pub open spec fn started(&self) -> bool {
        self.started
    }

    /// The route names a node of the tree, or is empty.
    pub open spec fn wf(&self) -> bool {
        self.route@.len() == 0 || node_at(*self.root, self.route@) is Some
    }

    /// A walk of the nodes below `folder` that has not begun.
    pub fn new(folder: &'a mut Folder<T>) -> (r: Self)
        ensures
            r.wf(),
            r.tree() == *old(folder),
            r.route().len() == 0,
            !r.started(),
            *final(folder) == *final(r.root),
    {
        IterMut { root: folder, route: Vec::new(), started: false }
    }

    /// The next node in pre-order with its path, to change in place.
    pub fn next(&mut self) -> (r: Option<(String, &mut Node<T>)>)
        requires
            old(self).wf(),
        ensures
            final(self).started(),
            match next_route(old(self).tree(), old(self).route(), old(self).started()) {
                None => r is None && final(self).route().len() == 0 && final(self).tree() == old(self).tree(),
                Some(route) => r matches Some(x) && {
                    &&& x.0@ == path_at(old(self).tree(), route)
                    &&& Some(*x.1) == node_at(old(self).tree(), route)
                    &&& final(self).route() == route
                    &&& replaced(old(self).tree(), final(self).tree(), route, *final(x.1))
                },
            },
            final(self).wf(),
    {
        let ghost f = *self.root;
        let ghost start = self.route@;
        if !self.started {
            self.started = true;
            self.route = Vec::new();
            match self.root.size_at_route(&self.route) {
                Some(m) => {
                    if m == 0 {
                        return None;
                    }
                },
                None => {
                    return None;
                },
            }
            proof {
                lemma_node_at_child(f, self.route@, 0);
            }
            self.route.push(0);
            assert(self.route@ =~= seq![0usize]);
        } else if self.route.len() == 0 {
            return None;
        } else {
            let size = self.root.size_at_route(&self.route);
            if size.is_some() && size.unwrap() > 0 {
                proof {
                    lemma_node_at_child(f, self.route@, 0);
                }
                self.route.push(0);
            } else {
                assert(next_route(f, start, true) == advance(f, self.route@));
                loop
                    invariant_except_break
                        self.route@.len() > 0,
                        node_at(f, self.route@) is Some,
                        next_route(f, start, true) == advance(f, self.route@),
                    invariant
                        f == *self.root,
                        self.started,
                        f == old(self).tree(),
                        start == old(self).route(),
                        old(self).started(),
                    ensures
                        self.route@.len() > 0,
                        node_at(f, self.route@) is Some,
                        next_route(f, start, true) == Some(self.route@),
                    decreases self.route@.len(),
                {
                    proof {
                        lemma_node_at_parent(f, self.route@);
                    }
                    let ghost at = self.route@;
                    let last = self.route.pop().unwrap();
                    assert(self.route@ =~= at.drop_last());
                    assert(last == at.last());
                    let n = self.root.size_at_route(&self.route).unwrap();
                    assert(last < n);
                    if last + 1 < n {
                        proof {
                            lemma_node_at_child(f, self.route@, (last + 1) as usize);
                        }
                        self.route.push(last + 1);
                        break;
                    }
                    assert(advance(f, at) == advance(f, self.route@));
                    if self.route.len() == 0 {
                        assert(advance(f, self.route@) is None);
                        assert(next_route(f, start, true) is None);
                        return None;
                    }
                }
            }
        }
        assert(self.route@.skip(0) =~= self.route@);
        let path = self.root.path_at_route(&self.route, 0);
        let node = self.root.node_at_route_mut(&self.route, 0);
        Some((path, node))
    }
}

} // verus!
