//! Line and column positions in a document, and the semantic tokens that
//! editors draw highlights from.

use vstd::prelude::*;

verus! {

/// A position in a document: a line and a column within it.
#[derive(Clone, Copy, Debug, PartialEq, Eq, Structural)]
pub struct Position {
    pub line: u32,
    pub character: u32,
}

/// A span of a document from `start` up to `end`.
#[derive(Clone, Copy, Debug, PartialEq, Eq, Structural)]
pub struct Range {
    pub start: Position,
    pub end: Position,
}

/// One highlighted span in the relative encoding that editors read: how
/// many lines it lies below the previous one, where it starts on its line,
/// how long it is, and what it is.
#[derive(Clone, Copy, Debug, PartialEq, Eq, Structural)]
pub struct SemanticToken {
    pub delta_line: u32,
    pub delta_start: u32,
    pub length: u32,
    pub token_type: u32,
    pub token_modifiers_bitset: u32,
}

/// The span of `len` columns (kept to the low 32 bits) that ends at `end`,
/// on the same line; it starts at the line's beginning when the line is
/// shorter than that.
pub open spec fn span_ending(end: Position, len: usize) -> Range {
    Range {
        start: Position {
            line: end.line,
            character: if (len as u32) <= end.character {
                (end.character - (len as u32)) as u32
            } else {
                0
            },
        },
        end,
    }
}

/// The span of `len` columns that ends at `end` (see `span_ending`).
pub fn make_span(end: Position, len: usize) -> (r: Range)
    ensures
        r == span_ending(end, len),
{
    #[verifier::truncate]
    let len32 = len as u32;
    let start = Position { line: end.line, character: end.character.saturating_sub(len32) };
    Range { start, end }
}

/// `a` comes before `b` in a document: on an earlier line, or earlier on
/// the same line.
pub open spec fn position_lt(a: Position, b: Position) -> bool {
    a.line < b.line || (a.line == b.line && a.character < b.character)
}

/// Whether `position` lies in `span`: at or after its start and before its
/// end.
pub fn position_in_range(position: Position, span: Range) -> (r: bool)
    ensures
        r == (!position_lt(position, span.start) && position_lt(position, span.end)),
{
    let after_start = position.line > span.start.line || (position.line == span.start.line
        && position.character >= span.start.character);
    let before_end = position.line < span.end.line || (position.line == span.end.line
        && position.character < span.end.character);
    after_start && before_end
}

} // verus!
