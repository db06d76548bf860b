//! What is known of a variable: where it is defined or referenced, and
//! the kind of value it holds as far as the scenes tell.

use vstd::prelude::*;
use vstd::laws_eq::obeys_concrete_eq;
use core::ops::Range;

verus! {

/// A place in a scene: the scene's path, the line and the byte span in it.
#[derive(Debug, PartialEq, Eq, Hash)]
pub struct VariableLocation {
    pub scene: String,
    pub line: usize,
    pub span: Range<usize>,
}

impl Clone for VariableLocation {
    /// The same place.
    fn clone(&self) -> (r: Self)
        ensures
            r.scene@ == self.scene@,
            r.line == self.line,
            r.span.start == self.span.start,
            r.span.end == self.span.end,
    {
        VariableLocation {
            scene: self.scene.clone(),
            line: self.line,
            span: Range { start: self.span.start, end: self.span.end },
        }
    }
}

/// The span of a place on its line, as positions; line and columns are
/// kept to their low 32 bits.
pub fn variable_location_to_range(location: &VariableLocation) -> (r: crate::position::Range)
    ensures
        r.start.line == location.line as u32,
        r.end.line == location.line as u32,
        r.start.character == location.span.start as u32,
        r.end.character == location.span.end as u32,
{
    #[verifier::truncate]
    let line = location.line as u32;
    #[verifier::truncate]
    let start = location.span.start as u32;
    #[verifier::truncate]
    let end = location.span.end as u32;
    crate::position::Range {
        start: crate::position::Position { line, character: start },
        end: crate::position::Position { line, character: end },
    }
}

/// The kind of value a variable holds, as far as its definitions tell:
/// one kind `K`, not known yet, or kinds that disagree.
#[derive(Debug, Clone, Copy, PartialEq, Eq, Hash)]
pub enum VariableKind<K> {
    Known(K),
    Unknown,
    Conflict,
}

/// What two sources of a variable's kind tell together: a kind that both
/// agree on or that only one knows; a conflict when they disagree or either
/// is a conflict; nothing when neither knows.
pub open spec fn merge_spec<K>(a: VariableKind<K>, b: VariableKind<K>) -> VariableKind<K> {
    match (a, b) {
        (VariableKind::Known(x), VariableKind::Known(y)) => if x == y {
            a
        } else {
            VariableKind::Conflict
        },
        (VariableKind::Conflict, _) => VariableKind::Conflict,
        (_, VariableKind::Conflict) => VariableKind::Conflict,
        (_, VariableKind::Unknown) => a,
        (VariableKind::Unknown, _) => b,
    }
}

impl<K: Copy + PartialEq> VariableKind<K> {
    /// The kind, when it is known.
    pub fn as_kind(&self) -> (r: Option<K>)
        ensures
            r == match *self {
                VariableKind::Known(k) => Some(k),
                _ => None,
            },
    {
        match *self {
            VariableKind::Known(kind) => Some(kind),
            _ => None,
        }
    }

    /// What this and `other` tell together (see `merge_spec`).
    pub fn merge(&self, other: &Self) -> (r: Self)
        requires
            obeys_concrete_eq::<K>(),
        ensures
            r == merge_spec(*self, *other),
    {
        proof {
            reveal(obeys_concrete_eq);
        }
        match (self, other) {
            (VariableKind::Known(a), VariableKind::Known(b)) => {
                if *a == *b {
                    *self
                } else {
                    VariableKind::Conflict
                }
            },
            (VariableKind::Conflict, _) => VariableKind::Conflict,
            (_, VariableKind::Conflict) => VariableKind::Conflict,
            (_, VariableKind::Unknown) => *self,
            (VariableKind::Unknown, _) => *other,
        }
    }

    /// A known kind, or not known when there is none.
    pub fn from_option(value: Option<K>) -> (r: Self)
        ensures
            r == match value {
                Some(k) => VariableKind::Known(k),
                None => VariableKind::Unknown,
            },
    {
        match value {
            Some(kind) => VariableKind::Known(kind),
            None => VariableKind::Unknown,
        }
    }
}

impl<K> Default for VariableKind<K> {
    /// Not known.
    fn default() -> (r: Self)
        ensures
            r == VariableKind::<K>::Unknown,
    {
        VariableKind::Unknown
    }
}

/// Merging the kinds told by several sources does not depend on their
/// order or grouping, nor on a source told twice; a source that knows
/// nothing changes nothing, and a conflict stays a conflict.
pub proof fn law_merge_is_a_join<K>(a: VariableKind<K>, b: VariableKind<K>, c: VariableKind<K>)
    ensures
        merge_spec(a, b) == merge_spec(b, a),
        merge_spec(merge_spec(a, b), c) == merge_spec(a, merge_spec(b, c)),
        merge_spec(a, a) == a,
        merge_spec(a, VariableKind::Unknown) == a,
        merge_spec(a, VariableKind::Conflict) == VariableKind::<K>::Conflict,
{
}

/// Merging only ever learns: once the merge of `a` and `b` is known, it is
/// the kind that `a` knew, if `a` knew one; a conflict merged with anything
/// stays a conflict.
pub proof fn law_merge_keeps_knowledge<K>(a: VariableKind<K>, b: VariableKind<K>)
    ensures
        a is Known && merge_spec(a, b) is Known ==> merge_spec(a, b) == a,
        a is Conflict ==> merge_spec(a, b) is Conflict,
        merge_spec(a, b) is Unknown ==> a is Unknown && b is Unknown,
{
}

} // verus!
