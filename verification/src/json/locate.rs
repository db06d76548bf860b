//! Where the end of partial JSON text lies: the path of fields and array
//! items leading to it, and what is being typed there.

use vstd::prelude::*;
use vstd::string::StrSliceExecFns;
use crate::text::chars_of;
use crate::json::parse::{RawToken, scan, parse_spec, tokens_in, token_in};

verus! {

broadcast use vstd::string::group_string_axioms;

/// One step of a JSON path.
#[derive(Debug, Clone, Copy, PartialEq, Eq, PartialOrd, Ord, Hash)]
pub enum Node<'a> {
    Field(&'a str),
    Array,
}

/// What the text ends in: a key being typed (without its opening quote), a
/// value being typed, or something else.
#[derive(Debug, Clone, Copy, Default, PartialEq, Eq, PartialOrd, Ord, Hash)]
pub enum Ident<'a> {
    Key(&'a str),
    Value(&'a str),
    #[default]
    Other,
}

/// Position of the end of partial JSON text.
#[derive(Debug, Clone, Default, PartialEq, Eq, PartialOrd, Ord, Hash)]
pub struct Location<'a> {
    pub path: Vec<Node<'a>>,
    pub ident: Ident<'a>,
}

/// A path step as characters.
pub enum NodeView {
    Field(Seq<char>),
    Array,
}

/// What is being typed, as characters.
pub enum IdentView {
    Key(Seq<char>),
    Value(Seq<char>),
    Other,
}

/// A location as characters.
pub struct LocationView {
    pub path: Seq<NodeView>,
    pub ident: IdentView,
}

impl<'a> View for Node<'a> {
    type V = NodeView;

    open spec fn view(&self) -> NodeView {
        match self {
            Node::Field(k) => NodeView::Field(k@),
            Node::Array => NodeView::Array,
        }
    }
}

impl<'a> View for Ident<'a> {
    type V = IdentView;

    open spec fn view(&self) -> IdentView {
        match self {
            Ident::Key(k) => IdentView::Key(k@),
            Ident::Value(v) => IdentView::Value(v@),
            Ident::Other => IdentView::Other,
        }
    }
}

impl<'a> View for Location<'a> {
    type V = LocationView;

    open spec fn view(&self) -> LocationView {
        LocationView { path: self.path@.map_values(|n: Node<'a>| n@), ident: self.ident@ }
    }
}

/// The path step that token `k` of the stack `t` contributes: every array
/// start, and every key that leads directly into an object or an array.
pub open spec fn node_of(s: Seq<char>, t: Seq<RawToken>, k: int) -> Seq<NodeView> {
    match t[k] {
        RawToken::ArrayStart => seq![NodeView::Array],
        RawToken::Key(a, b) => if k + 1 < t.len() && (t[k + 1] is ObjectStart || t[k
            + 1] is ArrayStart) {
            seq![NodeView::Field(s.subrange(a as int, b as int))]
        } else {
            seq![]
        },
        _ => seq![],
    }
}

/// The path steps of the first `k` tokens of `t`.
pub open spec fn path_upto(s: Seq<char>, t: Seq<RawToken>, k: int) -> Seq<NodeView>
    decreases k,
{
    if k <= 0 {
        seq![]
    } else {
        path_upto(s, t, k - 1) + node_of(s, t, k - 1)
    }
}

/// The path that the stack `t` describes.
pub open spec fn path_spec(s: Seq<char>, t: Seq<RawToken>) -> Seq<NodeView> {
    path_upto(s, t, t.len() as int)
}

/// The innermost object or array start on the stack.
pub open spec fn last_container(t: Seq<RawToken>) -> Option<RawToken>
    decreases t.len(),
{
    if t.len() == 0 {
        None
    } else if t.last() is ObjectStart || t.last() is ArrayStart {
        Some(t.last())
    } else {
        last_container(t.drop_last())
    }
}

/// What the non-empty stack `t` says is being typed at the end of `s`,
/// and the key whose value is expected there, if any.
pub open spec fn ident_spec(s: Seq<char>, t: Seq<RawToken>) -> (IdentView, Option<Seq<char>>) {
    match t.last() {
        RawToken::ObjectStart => (IdentView::Key(seq![]), None),
        RawToken::ArrayStart => (IdentView::Value(seq![]), None),
        RawToken::Key(a, b) => (IdentView::Value(seq![]), Some(s.subrange(a as int, b as int))),
        RawToken::Value(a, b) => {
            let v = s.subrange(a as int, b as int);
            let rest = s.subrange(a as int, s.len() as int);
            if !(v.len() > 0 && v.last() == '"') || v == seq!['"'] {
                if t.len() >= 2 && t[t.len() - 2] is Key {
                    (IdentView::Value(rest), None)
                } else {
                    match last_container(t) {
                        Some(RawToken::ObjectStart) => if rest.len() > 0 && rest[0] == '"' {
                            (IdentView::Key(rest.drop_first()), None)
                        } else {
                            (IdentView::Other, None)
                        },
                        Some(RawToken::ArrayStart) => (IdentView::Value(rest), None),
                        _ => (IdentView::Other, None),
                    }
                }
            } else {
                (IdentView::Other, None)
            }
        },
    }
}

/// The location of the end of the text `s`.
pub open spec fn locate_spec(s: Seq<char>) -> LocationView {
    match parse_spec(s) {
        Some(t) if t.len() > 0 => {
            let (ident, key) = ident_spec(s, t);
            let rest = if t.last() is Key || t.last() is Value {
                t.drop_last()
            } else {
                t
            };
            let tail = match key {
                Some(k) => seq![NodeView::Field(k)],
                None => seq![],
            };
            LocationView { path: path_spec(s, rest) + tail, ident }
        },
        _ => LocationView { path: seq![], ident: IdentView::Other },
    }
}

fn last_container_of(t: &Vec<RawToken>) -> (r: Option<RawToken>)
    ensures
        r == last_container(t@),
{
    let mut k = t.len();
    assert(t@.take(k as int) =~= t@);
    while k > 0
        invariant
            k <= t.len(),
            last_container(t@) == last_container(t@.take(k as int)),
        decreases k,
    {
        let tok = t[k - 1];
        assert(t@.take(k as int).drop_last() =~= t@.take(k - 1));
        match tok {
            RawToken::ObjectStart => {
                return Some(tok);
            },
            RawToken::ArrayStart => {
                return Some(tok);
            },
            _ => {},
        }
        k -= 1;
    }
    None
}

fn path_of<'a>(s: &'a str, t: &Vec<RawToken>, len: usize) -> (r: Vec<Node<'a>>)
    requires
        len <= t.len(),
        tokens_in(t@, s@.len() as int),
    ensures
        r@.map_values(|n: Node<'a>| n@) == path_spec(s@, t@.take(len as int)),
{
    let ghost u = t@.take(len as int);
    let mut r: Vec<Node<'a>> = Vec::new();
    let mut k: usize = 0;
    while k < len
        invariant
            u == t@.take(len as int),
            len <= t.len(),
            tokens_in(t@, s@.len() as int),
            k <= len,
            r@.map_values(|n: Node<'a>| n@) == path_upto(s@, u, k as int),
        decreases len - k,
    {
        let ghost before = r@;
        assert(token_in(t@[k as int], s@.len() as int));
        match t[k] {
            RawToken::ArrayStart => {
                r.push(Node::Array);
            },
            RawToken::Key(a, b) => {
                let leads = k + 1 < len && match t[k + 1] {
                    RawToken::ObjectStart => true,
                    RawToken::ArrayStart => true,
                    _ => false,
                };
                if leads {
                    r.push(Node::Field(s.substring_char(a, b)));
                }
            },
            _ => {},
        }
        assert(r@.map_values(|n: Node<'a>| n@) =~= before.map_values(|n: Node<'a>| n@) + node_of(
            s@,
            u,
            k as int,
        ));
        k += 1;
    }
    r
}

fn ident_and_key_of<'a>(s: &'a str, chars: &Vec<char>, t: &Vec<RawToken>) -> (r: (
    Ident<'a>,
    Option<&'a str>,
))
    requires
        chars@ == s@,
        t.len() > 0,
        tokens_in(t@, s@.len() as int),
    ensures
        r.0@ == ident_spec(s@, t@).0,
        match ident_spec(s@, t@).1 {
            Some(k) => r.1 matches Some(x) && x@ == k,
            None => r.1 is None,
        },
{
    let n = chars.len();
    let empty = s.substring_char(0, 0);
    assert(empty@ =~= Seq::<char>::empty());
    let last = t[t.len() - 1];
    assert(token_in(t@[t.len() - 1], s@.len() as int));
    match last {
        RawToken::ObjectStart => (Ident::Key(empty), None),
        RawToken::ArrayStart => (Ident::Value(empty), None),
        RawToken::Key(a, b) => (Ident::Value(empty), Some(s.substring_char(a, b))),
        RawToken::Value(a, b) => {
            let ghost v = s@.subrange(a as int, b as int);
            let ends_with_quote = b > a && chars[b - 1] == '"';
            let lone_quote = b - a == 1 && chars[a] == '"';
            assert(ends_with_quote == (v.len() > 0 && v.last() == '"'));
            assert(lone_quote == (v == seq!['"'])) by {
                if v == seq!['"'] {
                    assert(v[0] == '"');
                }
                if lone_quote {
                    assert(v =~= seq!['"']);
                }
            }
            let ghost rest = s@.subrange(a as int, n as int);
            assert(rest.len() > 0 ==> rest[0] == chars@[a as int]);
            if !ends_with_quote || lone_quote {
                let after_key = t.len() >= 2 && match t[t.len() - 2] {
                    RawToken::Key(_, _) => true,
                    _ => false,
                };
                if after_key {
                    return (Ident::Value(s.substring_char(a, n)), None);
                }
                match last_container_of(t) {
                    Some(RawToken::ObjectStart) => {
                        if a < n && chars[a] == '"' {
                            let key = s.substring_char(a + 1, n);
                            assert(key@ =~= s@.subrange(a as int, n as int).drop_first());
                            (Ident::Key(key), None)
                        } else {
                            (Ident::Other, None)
                        }
                    },
                    Some(RawToken::ArrayStart) => (Ident::Value(s.substring_char(a, n)), None),
                    _ => (Ident::Other, None),
                }
            } else {
                (Ident::Other, None)
            }
        },
    }
}

impl<'a> Location<'a> {
    /// Leniently parses JSON text and tells where its end lies.
    pub fn locate(s: &'a str) -> (r: Location<'a>)
        ensures
            r@ == locate_spec(s@),
    {
        let chars = chars_of(s);
        let (parsed, _) = scan(&chars);
        let tokens = match parsed {
            Some(tokens) => tokens,
            None => {
                let r = Location { path: Vec::new(), ident: Ident::Other };
                assert(r@.path =~= Seq::<NodeView>::empty());
                return r;
            },
        };
        if tokens.len() == 0 {
            let r = Location { path: Vec::new(), ident: Ident::Other };
            assert(r@.path =~= Seq::<NodeView>::empty());
            return r;
        }
        let (ident, key) = ident_and_key_of(s, &chars, &tokens);
        let drop_last = match tokens[tokens.len() - 1] {
            RawToken::Key(_, _) => true,
            RawToken::Value(_, _) => true,
            _ => false,
        };
        let len = if drop_last {
            tokens.len() - 1
        } else {
            tokens.len()
        };
        assert(drop_last ==> tokens@.take(len as int) =~= tokens@.drop_last());
        assert(!drop_last ==> tokens@.take(len as int) =~= tokens@);
        let mut path = path_of(s, &tokens, len);
        let ghost before = path@;
        match key {
            Some(k) => {
                path.push(Node::Field(k));
            },
            None => {},
        }
        let r = Location { path, ident };
        assert(r@.path =~= locate_spec(s@).path);
        r
    }
}

} // verus!
