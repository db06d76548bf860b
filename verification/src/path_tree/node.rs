//! Nodes of a path tree.

use vstd::prelude::*;
use vstd::string::{StrSliceExecFns, StringExecFns};
use crate::path_tree::folder::{Folder, NodeView, node_wf, chain};
use crate::path_tree::util::{slash_pieces, first_slash_from};
use crate::text::chars_of;

verus! {

broadcast use vstd::string::group_string_axioms;

/// A node of a path tree: an item, or a folder of named nodes.
#[derive(Debug, PartialEq, Eq, PartialOrd, Ord, Hash)]
pub enum Node<T> {
    Item(T),
    Folder(Folder<T>),
}

impl<T> Node<T> {
    /// `node` placed below the chain of folders that `path` names (split
    /// at `/`); `node` itself when `path` is empty. Assumes a canonical
    /// path; otherwise names like `.` or `\` are taken literally.
    pub fn with_ancestors(path: &str, node: Self) -> (r: Self)
        ensures
            path@.len() == 0 ==> r == node,
            path@.len() > 0 ==> r@ == chain(slash_pieces(path@), node@),
            node_wf(node) ==> node_wf(r),
    {
        if path.unicode_len() == 0 {
            return node;
        }
        let names = split_slash(path);
        let mut r = node;
        let mut k = names.len();
        assert(strs_of(names@).skip(k as int) =~= Seq::<Seq<char>>::empty());
        while k > 0
            invariant
                k <= names.len(),
                r@ == chain(strs_of(names@).skip(k as int), node@),
                node_wf(node) ==> node_wf(r),
            decreases k,
        {
            let ghost inner = r;
            r = Node::Folder(Folder::single(names[k - 1].clone(), r));
            proof {
                let rest = strs_of(names@).skip(k - 1);
                assert(rest.drop_first() =~= strs_of(names@).skip(k as int));
                assert(rest[0] == names@[k - 1]@);
            }
            k -= 1;
        }
        assert(strs_of(names@).skip(0) =~= strs_of(names@));
        r
    }

    /// Whether this is an item.
    pub fn is_item(&self) -> (b: bool)
        ensures
            b == self is Item,
    {
        match self {
            Node::Item(_) => true,
            Node::Folder(_) => false,
        }
    }

    /// The item, if this is one.
    pub fn as_item(&self) -> (r: Option<&T>)
        ensures
            match self {
                Node::Item(t) => r == Some(t),
                Node::Folder(_) => r is None,
            },
    {
        match self {
            Node::Item(item) => Some(item),
            Node::Folder(_) => None,
        }
    }

    /// The item, if this is one, to change in place.
    pub fn as_item_mut(&mut self) -> (r: Option<&mut T>)
        ensures
            match *old(self) {
                Node::Item(t) => r matches Some(x) && *x == t && *final(self) == Node::<T>::Item(
                    *final(x),
                ),
                Node::Folder(_) => r is None && *final(self) == *old(self),
            },
    {
        match self {
            Node::Item(item) => Some(item),
            Node::Folder(_) => None,
        }
    }

    /// The item, if this is one.
    pub fn into_item(self) -> (r: Option<T>)
        ensures
            match self {
                Node::Item(t) => r == Some(t),
                Node::Folder(_) => r is None,
            },
    {
        match self {
            Node::Item(item) => Some(item),
            Node::Folder(_) => None,
        }
    }

    /// Whether this is a folder.
    pub fn is_folder(&self) -> (b: bool)
        ensures
            b == self is Folder,
    {
        match self {
            Node::Item(_) => false,
            Node::Folder(_) => true,
        }
    }

    /// The folder, if this is one.
    pub fn as_folder(&self) -> (r: Option<&Folder<T>>)
        ensures
            match self {
                Node::Folder(f) => r == Some(f),
                Node::Item(_) => r is None,
            },
    {
        match self {
            Node::Folder(folder) => Some(folder),
            Node::Item(_) => None,
        }
    }

    /// The folder, if this is one, to change in place.
    pub fn as_folder_mut(&mut self) -> (r: Option<&mut Folder<T>>)
        ensures
            match *old(self) {
                Node::Folder(f) => r matches Some(x) && *x == f && *final(self) == Node::<
                    T,
                >::Folder(*final(x)),
                Node::Item(_) => r is None && *final(self) == *old(self),
            },
    {
        match self {
            Node::Folder(folder) => Some(folder),
            Node::Item(_) => None,
        }
    }

    /// The folder, if this is one.
    pub fn into_folder(self) -> (r: Option<Folder<T>>)
        ensures
            match self {
                Node::Folder(f) => r == Some(f),
                Node::Item(_) => r is None,
            },
    {
        match self {
            Node::Folder(folder) => Some(folder),
            Node::Item(_) => None,
        }
    }
}

/// Views of a list of strings.
pub open spec fn strs_of(v: Seq<String>) -> Seq<Seq<char>> {
    v.map_values(|x: String| x@)
}

proof fn lemma_first_slash_at(t: Seq<char>, k: int, m: int)
    requires
        0 <= k <= m < t.len(),
        t[m] == '/',
        forall|j: int| k <= j < m ==> t[j] != '/',
    ensures
        first_slash_from(t, k) == Some(m),
    decreases m - k,
{
    if k < m {
        lemma_first_slash_at(t, k + 1, m);
    }
}

proof fn lemma_first_slash_none(t: Seq<char>, k: int)
    requires
        0 <= k,
        forall|j: int| k <= j < t.len() ==> t[j] != '/',
    ensures
        first_slash_from(t, k) is None,
    decreases t.len() - k,
{
    if k < t.len() {
        lemma_first_slash_none(t, k + 1);
    }
}

/// The pieces of `path` between `/` characters.
fn split_slash(path: &str) -> (r: Vec<String>)
    ensures
        strs_of(r@) == slash_pieces(path@),
{
    let chars = chars_of(path);
    let ghost s = path@;
    let n = chars.len();
    let mut out: Vec<String> = Vec::new();
    let mut start: usize = 0;
    let mut i: usize = 0;
    assert(s.skip(0) =~= s);
    while i < n
        invariant
            s == path@,
            chars@ == s,
            n == chars.len(),
            start <= i <= n,
            forall|j: int| start <= j < i ==> s[j] != '/',
            slash_pieces(s) == strs_of(out@) + slash_pieces(s.skip(start as int)),
        decreases n - i,
    {
        if chars[i] == '/' {
            let ghost t = s.skip(start as int);
            proof {
                lemma_first_slash_at(t, 0, i - start);
                assert(t.take(i - start) =~= s.subrange(start as int, i as int));
                assert(t.skip(i - start + 1) =~= s.skip(i + 1));
            }
            let ghost before = out@;
            out.push(String::from_str(path.substring_char(start, i)));
            assert(strs_of(out@) =~= strs_of(before) + seq![s.subrange(start as int, i as int)]);
            start = i + 1;
        }
        i += 1;
    }
    proof {
        lemma_first_slash_none(s.skip(start as int), 0);
        assert(s.skip(start as int) =~= s.subrange(start as int, n as int));
    }
    let ghost before = out@;
    out.push(String::from_str(path.substring_char(start, n)));
    assert(strs_of(out@) =~= strs_of(before) + seq![s.subrange(start as int, n as int)]);
    out
}

} // verus!
