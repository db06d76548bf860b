//! Conversion of column offsets between UTF-16 code units, which editors
//! count, and UTF-8 bytes, which the library counts.

use vstd::prelude::*;
use crate::position::{Position, Range};
use crate::text::{
    utf8_len, utf16_len, utf8_width, utf16_width, chars_of, byte_len, len_utf8, len_utf16,
    lemma_len_take_next, lemma_len_take_mono, lemma_utf16_le_utf8,
};

verus! {

/// Number of leading characters of `s`, counted from `k` on, that end at
/// or before the UTF-16 offset `offset`.
pub open spec fn fit_utf16(s: Seq<char>, k: int, offset: int) -> int
    decreases s.len() - k,
{
    if k < 0 || k >= s.len() || utf16_len(s.take(k + 1)) > offset {
        k
    } else {
        fit_utf16(s, k + 1, offset)
    }
}

/// Number of leading characters of `s`, counted from `k` on, that end at
/// or before the byte offset `offset`.
pub open spec fn fit_utf8(s: Seq<char>, k: int, offset: int) -> int
    decreases s.len() - k,
{
    if k < 0 || k >= s.len() || utf8_len(s.take(k + 1)) > offset {
        k
    } else {
        fit_utf8(s, k + 1, offset)
    }
}

/// Byte offset of the UTF-16 offset `offset` in `s`: the end of the last
/// character that ends at or before it (the whole text when it lies past
/// the end).
pub open spec fn utf16_to_utf8(s: Seq<char>, offset: int) -> nat {
    utf8_len(s.take(fit_utf16(s, 0, offset)))
}

/// UTF-16 offset of the byte offset `offset` in `s`: the end of the last
/// character that ends at or before it.
pub open spec fn utf8_to_utf16(s: Seq<char>, offset: int) -> nat {
    utf16_len(s.take(fit_utf8(s, 0, offset)))
}

proof fn lemma_fit_at_boundary(s: Seq<char>, j: int, k: int)
    requires
        0 <= j <= k <= s.len(),
    ensures
        fit_utf16(s, j, utf16_len(s.take(k)) as int) == k,
        fit_utf8(s, j, utf8_len(s.take(k)) as int) == k,
    decreases k - j,
{
    if j < k {
        lemma_len_take_mono(s, j + 1, k);
        lemma_fit_at_boundary(s, j + 1, k);
    } else if k < s.len() {
        lemma_len_take_next(s, k);
    }
}

/// At every character boundary the two conversions undo each other: the
/// UTF-16 offset of the boundary converts to its byte offset and back.
pub proof fn law_offsets_round_trip(s: Seq<char>, k: int)
    requires
        0 <= k <= s.len(),
    ensures
        utf16_to_utf8(s, utf16_len(s.take(k)) as int) == utf8_len(s.take(k)),
        utf8_to_utf16(s, utf8_len(s.take(k)) as int) == utf16_len(s.take(k)),
        utf8_to_utf16(s, utf16_to_utf8(s, utf16_len(s.take(k)) as int) as int) == utf16_len(
            s.take(k),
        ),
{
    lemma_fit_at_boundary(s, 0, k);
}


/// The text of each line, as characters.
pub open spec fn lines_view(lines: Seq<&str>) -> Seq<Seq<char>> {
    lines.map_values(|l: &str| l@)
}

/// A position with its column converted from UTF-16 units to bytes on its
/// line; a position past the last line is left as it is.
pub open spec fn position_to_utf8(lines: Seq<Seq<char>>, p: Position) -> Position {
    if p.line < lines.len() {
        Position { line: p.line, character: utf16_to_utf8(lines[p.line as int], p.character as int) as u32 }
    } else {
        p
    }
}

/// A position with its column converted from bytes to UTF-16 units on its
/// line; a position past the last line is left as it is.
pub open spec fn position_to_utf16(lines: Seq<Seq<char>>, p: Position) -> Position {
    if p.line < lines.len() {
        Position { line: p.line, character: utf8_to_utf16(lines[p.line as int], p.character as int) as u32 }
    } else {
        p
    }
}

proof fn lemma_fit_utf8_mono(s: Seq<char>, k: int, a: int, b: int)
    requires
        0 <= k <= s.len(),
        a <= b,
    ensures
        fit_utf8(s, k, a) <= fit_utf8(s, k, b),
        k <= fit_utf8(s, k, a) <= s.len(),
    decreases s.len() - k,
{
    if k < s.len() && utf8_len(s.take(k + 1)) <= a {
        lemma_fit_utf8_mono(s, k + 1, a, b);
    } else if k < s.len() && utf8_len(s.take(k + 1)) <= b {
        lemma_fit_utf8_mono(s, k + 1, b, b);
    }
}

proof fn lemma_fit_utf8_within(s: Seq<char>, k: int, a: int)
    requires
        0 <= k <= s.len(),
        utf8_len(s.take(k)) <= a,
    ensures
        utf8_len(s.take(fit_utf8(s, k, a))) <= a,
    decreases s.len() - k,
{
    if k < s.len() && utf8_len(s.take(k + 1)) <= a {
        lemma_fit_utf8_within(s, k + 1, a);
    }
}

/// Converting byte offsets to UTF-16 keeps their order, and never gives
/// more units than bytes.
pub proof fn lemma_utf8_to_utf16_mono(s: Seq<char>, a: int, b: int)
    requires
        0 <= a <= b,
    ensures
        utf8_to_utf16(s, a) <= utf8_to_utf16(s, b),
        utf8_to_utf16(s, b) <= b,
{
    lemma_fit_utf8_mono(s, 0, a, b);
    lemma_fit_utf8_mono(s, 0, b, b);
    lemma_len_take_mono(s, fit_utf8(s, 0, a), fit_utf8(s, 0, b));
    assert(s.take(0) =~= Seq::<char>::empty());
    lemma_fit_utf8_within(s, 0, b);
    lemma_utf16_le_utf8(s.take(fit_utf8(s, 0, b)));
}

/// Converts a UTF-16 offset within `content` to a byte offset. An offset
/// inside a character maps to that character's start; one past the end
/// maps to the end.
pub fn offset_utf16_to_utf8(content: &str, offset: u32) -> (r: u32)
    ensures
        r == utf16_to_utf8(content@, offset as int) as u32,
{
    let chars = chars_of(content);
    let total = byte_len(content);
    let ghost s = content@;
    let mut utf8_pos: usize = 0;
    let mut utf16_pos: usize = 0;
    let mut k: usize = 0;
    proof {
        assert(s.take(0) =~= Seq::<char>::empty());
        assert(s.take(s.len() as int) =~= s);
    }
    while k < chars.len()
        invariant
            chars@ == s,
            total == utf8_len(s),
            s.take(s.len() as int) == s,
            k <= chars.len(),
            utf8_pos == utf8_len(s.take(k as int)),
            utf16_pos == utf16_len(s.take(k as int)),
            fit_utf16(s, 0, offset as int) == fit_utf16(s, k as int, offset as int),
        ensures
            k == chars.len() || utf16_len(s.take(k + 1)) > offset,
            utf8_pos == utf8_len(s.take(k as int)),
            fit_utf16(s, 0, offset as int) == fit_utf16(s, k as int, offset as int),
        decreases chars.len() - k,
    {
        let ch = chars[k];
        proof {
            lemma_len_take_next(s, k as int);
            lemma_len_take_mono(s, k + 1, s.len() as int);
            lemma_utf16_le_utf8(s.take(k + 1));
        }
        let ch_utf16 = len_utf16(ch);
        let ch_utf8 = len_utf8(ch);
        if utf16_pos + ch_utf16 > offset as usize {
            break;
        }
        utf16_pos += ch_utf16;
        utf8_pos += ch_utf8;
        k += 1;
    }
    assert(fit_utf16(s, k as int, offset as int) == k);
    #[verifier::truncate]
    (utf8_pos as u32)
}

/// Converts a byte offset within `content` to a UTF-16 offset. An offset
/// inside a character maps to that character's start; one past the end
/// maps to the end.
pub fn offset_utf8_to_utf16(content: &str, offset: u32) -> (r: u32)
    ensures
        r == utf8_to_utf16(content@, offset as int) as u32,
{
    let chars = chars_of(content);
    let total = byte_len(content);
    let ghost s = content@;
    let offset = offset as usize;
    let mut utf8_pos: usize = 0;
    let mut utf16_pos: usize = 0;
    let mut k: usize = 0;
    proof {
        assert(s.take(0) =~= Seq::<char>::empty());
        assert(s.take(s.len() as int) =~= s);
    }
    while k < chars.len()
        invariant
            chars@ == s,
            total == utf8_len(s),
            s.take(s.len() as int) == s,
            k <= chars.len(),
            utf8_pos == utf8_len(s.take(k as int)),
            utf16_pos == utf16_len(s.take(k as int)),
            fit_utf8(s, 0, offset as int) == fit_utf8(s, k as int, offset as int),
        ensures
            k == chars.len() || utf8_len(s.take(k + 1)) > offset,
            utf16_pos == utf16_len(s.take(k as int)),
            fit_utf8(s, 0, offset as int) == fit_utf8(s, k as int, offset as int),
        decreases chars.len() - k,
    {
        let ch = chars[k];
        proof {
            lemma_len_take_next(s, k as int);
            lemma_len_take_mono(s, k + 1, s.len() as int);
            lemma_utf16_le_utf8(s.take(k + 1));
        }
        let next_utf8 = utf8_pos + len_utf8(ch);
        if next_utf8 > offset {
            break;
        }
        utf8_pos = next_utf8;
        utf16_pos += len_utf16(ch);
        k += 1;
    }
    assert(fit_utf8(s, k as int, offset as int) == k);
    #[verifier::truncate]
    (utf16_pos as u32)
}

/// Converts the column of `position` from UTF-16 units to bytes on its
/// line of `lines`. A position past the last line is returned unchanged.
pub fn position_utf16_to_utf8(lines: &[&str], position: Position) -> (r: Position)
    ensures
        r == position_to_utf8(lines_view(lines@), position),
{
    if (position.line as usize) < lines.len() {
        let content = lines[position.line as usize];
        let character = offset_utf16_to_utf8(content, position.character);
        Position { line: position.line, character }
    } else {
        position
    }
}

/// Converts the column of `position` from bytes to UTF-16 units on its
/// line of `lines`. A position past the last line is returned unchanged.
pub fn position_utf8_to_utf16(lines: &[&str], position: Position) -> (r: Position)
    ensures
        r == position_to_utf16(lines_view(lines@), position),
{
    if (position.line as usize) < lines.len() {
        let content = lines[position.line as usize];
        let character = offset_utf8_to_utf16(content, position.character);
        Position { line: position.line, character }
    } else {
        position
    }
}

/// Converts both ends of `range` from UTF-16 columns to byte columns.
pub fn range_utf16_to_utf8(lines: &[&str], range: Range) -> (r: Range)
    ensures
        r.start == position_to_utf8(lines_view(lines@), range.start),
        r.end == position_to_utf8(lines_view(lines@), range.end),
{
    Range {
        start: position_utf16_to_utf8(lines, range.start),
        end: position_utf16_to_utf8(lines, range.end),
    }
}

/// Converts both ends of `range` from byte columns to UTF-16 columns.
pub fn range_utf8_to_utf16(lines: &[&str], range: Range) -> (r: Range)
    ensures
        r.start == position_to_utf16(lines_view(lines@), range.start),
        r.end == position_to_utf16(lines_view(lines@), range.end),
{
    Range {
        start: position_utf8_to_utf16(lines, range.start),
        end: position_utf8_to_utf16(lines, range.end),
    }
}

} // verus!
