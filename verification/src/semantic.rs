//! Semantic tokens: how the highlights of a document are laid out line by
//! line, and how their byte columns become the UTF-16 columns that editors
//! read.
//!
//! The library lays tokens out by bytes, each one starting some bytes after
//! the end of the token before it on its line. Editors want UTF-16 units,
//! each token starting some units after the start of the token before it.

use vstd::prelude::*;
use crate::position::{Position, SemanticToken};
use crate::encode::{lines_view, utf8_to_utf16, lemma_utf8_to_utf16_mono, offset_utf8_to_utf16};

verus! {

/// Where a token lands, as a line and a byte column, when the token before
/// it ended on `line` at byte `end`.
pub open spec fn token_place(t: SemanticToken, line: int, end: int) -> (int, int) {
    if t.delta_line > 0 {
        (line + t.delta_line, t.delta_start as int)
    } else {
        (line, end + t.delta_start)
    }
}

/// The line and the byte column where the first `n` tokens end.
pub open spec fn byte_cursor(toks: Seq<SemanticToken>, n: int) -> (int, int)
    decreases n,
{
    if n <= 0 {
        (0, 0)
    } else {
        let (line, end) = byte_cursor(toks, n - 1);
        let (l, s) = token_place(toks[n - 1], line, end);
        (l, s + toks[n - 1].length)
    }
}

proof fn lemma_cursor_nonneg(toks: Seq<SemanticToken>, n: int)
    ensures
        byte_cursor(toks, n).0 >= 0,
        byte_cursor(toks, n).1 >= 0,
        n > 0 ==> place_of(toks, n - 1).0 >= 0 && place_of(toks, n - 1).1 >= 0,
    decreases n,
{
    if n > 0 {
        lemma_cursor_nonneg(toks, n - 1);
    }
}

/// The line and the starting byte column of token `i`.
pub open spec fn place_of(toks: Seq<SemanticToken>, i: int) -> (int, int) {
    let (line, end) = byte_cursor(toks, i);
    token_place(toks[i], line, end)
}

/// Every token lies on a line of the document, and ends at a byte column
/// that a column number can hold.
pub open spec fn tokens_fit(lines: Seq<Seq<char>>, toks: Seq<SemanticToken>) -> bool {
    forall|i: int|
        0 <= i < toks.len() ==> {
            let (l, s) = #[trigger] place_of(toks, i);
            0 <= l < lines.len() && s + toks[i].length <= u32::MAX
        }
}

/// The UTF-16 column where token `i` starts.
pub open spec fn utf16_start_of(lines: Seq<Seq<char>>, toks: Seq<SemanticToken>, i: int) -> int {
    let (l, s) = place_of(toks, i);
    utf8_to_utf16(lines[l], s) as int
}

/// Token `i` in the editors' encoding: its start counted in UTF-16 units
/// from the line's beginning when it opens a line, else from the start of
/// the token before it, and its length in UTF-16 units.
pub open spec fn encoded_token(
    lines: Seq<Seq<char>>,
    toks: Seq<SemanticToken>,
    i: int,
) -> SemanticToken {
    let t = toks[i];
    let (l, s) = place_of(toks, i);
    let a = utf8_to_utf16(lines[l], s) as int;
    let b = utf8_to_utf16(lines[l], s + t.length) as int;
    let prev = if i == 0 {
        0
    } else {
        utf16_start_of(lines, toks, i - 1)
    };
    SemanticToken {
        delta_line: t.delta_line,
        delta_start: (if t.delta_line > 0 {
            a
        } else {
            a - prev
        }) as u32,
        length: (b - a) as u32,
        token_type: t.token_type,
        token_modifiers_bitset: t.token_modifiers_bitset,
    }
}

/// Re-encodes `tokens`, laid out by bytes over the lines `lines`, in the
/// editors' encoding (see the module's documentation).
pub fn highlights_utf8_to_utf16(lines: &[&str], tokens: &mut [SemanticToken])
    requires
        tokens_fit(lines_view(lines@), old(tokens)@),
    ensures
        final(tokens)@.len() == old(tokens)@.len(),
        forall|i: int|
            0 <= i < old(tokens)@.len() ==> final(tokens)@[i] == encoded_token(
                lines_view(lines@),
                old(tokens)@,
                i,
            ),
{
    let ghost lv = lines_view(lines@);
    let ghost toks = tokens@;
    let n = tokens.len();
    let line_count = lines.len();
    let mut current_line: usize = 0;
    let mut current_byte_pos: usize = 0;
    let mut prev_utf16_start: usize = 0;
    let mut i: usize = 0;
    while i < n
        invariant
            lv == lines_view(lines@),
            line_count == lines@.len(),
            tokens_fit(lv, toks),
            toks.len() == n,
            tokens@.len() == n,
            i <= n,
            forall|j: int| 0 <= j < i ==> tokens@[j] == encoded_token(lv, toks, j),
            forall|j: int| i <= j < n ==> tokens@[j] == toks[j],
            (current_line as int, current_byte_pos as int) == byte_cursor(toks, i as int),
            i > 0 ==> prev_utf16_start == utf16_start_of(lv, toks, i - 1),
            i == 0 ==> prev_utf16_start == 0,
        decreases n - i,
    {
        let token = tokens[i];
        let ghost (l, s) = place_of(toks, i as int);
        proof {
            assert(lv.len() == lines@.len());
            lemma_cursor_nonneg(toks, i as int);
            assert(0 <= l < lv.len() && s + toks[i as int].length <= u32::MAX);
            if i > 0 {
                let (pl, ps) = place_of(toks, i - 1);
                assert(byte_cursor(toks, i as int) == (pl, ps + toks[i - 1].length));
                assert(0 <= pl < lv.len() && ps + toks[i - 1].length <= u32::MAX);
            }
        }
        let delta_line = token.delta_line as usize;
        let delta_start = token.delta_start as usize;
        let length = token.length as usize;
        if delta_line > 0 {
            current_line += delta_line;
            current_byte_pos = delta_start;
        } else {
            current_byte_pos += delta_start;
        }
        assert(current_line == l && current_byte_pos == s);
        let line_content = lines[current_line];
        assert(line_content@ == lv[l]);
        proof {
            lemma_utf8_to_utf16_mono(lv[l], s, s + length);
            if i > 0 && delta_line == 0 {
                let (pl, ps) = place_of(toks, i - 1);
                lemma_utf8_to_utf16_mono(lv[l], ps, s);
                assert(pl == l);
            }
        }
        let utf16_start = offset_utf8_to_utf16(line_content, current_byte_pos as u32) as usize;
        let utf16_end = offset_utf8_to_utf16(line_content, (current_byte_pos + length) as u32) as usize;
        let utf16_len = utf16_end - utf16_start;
        let new_delta_start = if delta_line > 0 {
            utf16_start
        } else {
            utf16_start - prev_utf16_start
        };
        tokens[i] = SemanticToken {
            delta_line: token.delta_line,
            delta_start: new_delta_start as u32,
            length: utf16_len as u32,
            token_type: token.token_type,
            token_modifiers_bitset: token.token_modifiers_bitset,
        };
        prev_utf16_start = utf16_start;
        current_byte_pos += length;
        i += 1;
    }
}

// ---- laying out the highlights of a range of lines ----

/// Where the first `n` tokens of a line end, in bytes from the line's start,
/// when each starts `delta_start` bytes after the end of the one before it.
pub open spec fn rel_end(toks: Seq<SemanticToken>, n: int) -> int
    decreases n,
{
    if n <= 0 {
        0
    } else {
        rel_end(toks, n - 1) + toks[n - 1].delta_start + toks[n - 1].length
    }
}

/// The first token, from `i` on, that ends after byte `c`; the number of
/// tokens when none does.
pub open spec fn first_kept(toks: Seq<SemanticToken>, c: int, i: int) -> int
    decreases toks.len() - i,
{
    if i < 0 || i >= toks.len() || rel_end(toks, i + 1) > c {
        i
    } else {
        first_kept(toks, c, i + 1)
    }
}

/// The tokens of a line with everything before byte `c` cut away: the tokens
/// that end at or before `c` are dropped, and the first one left starts at
/// `c` at the earliest, its start now counted from the line's start.
pub open spec fn clipped(toks: Seq<SemanticToken>, c: int) -> Seq<SemanticToken> {
    let f = first_kept(toks, c, 0);
    if f >= toks.len() {
        Seq::empty()
    } else {
        let t = toks[f];
        let st = rel_end(toks, f) + t.delta_start;
        let en = rel_end(toks, f + 1);
        let first = if st < c {
            SemanticToken { delta_start: c as u32, length: (en - c) as u32, ..t }
        } else {
            SemanticToken { delta_start: st as u32, ..t }
        };
        seq![first] + toks.skip(f + 1)
    }
}

/// The byte ends met while looking for the first token to keep can be held
/// in a column number.
pub open spec fn clip_fits(toks: Seq<SemanticToken>, c: int) -> bool {
    forall|i: int|
        0 <= i < toks.len() && i <= first_kept(toks, c, 0) ==> #[trigger] rel_end(toks, i + 1)
            <= u32::MAX
}

proof fn lemma_first_kept(toks: Seq<SemanticToken>, c: int, i: int)
    requires
        0 <= i <= toks.len(),
    ensures
        i <= first_kept(toks, c, i) <= toks.len(),
        first_kept(toks, c, i) < toks.len() ==> rel_end(toks, first_kept(toks, c, i) + 1) > c,
    decreases toks.len() - i,
{
    if i < toks.len() && rel_end(toks, i + 1) <= c {
        lemma_first_kept(toks, c, i + 1);
    }
}

/// Cuts away what lies before byte `c` of a line's tokens (see `clipped`).
fn clip_line(tokens: &Vec<SemanticToken>, c: u32) -> (r: Vec<SemanticToken>)
    requires
        clip_fits(tokens@, c as int),
    ensures
        r@ == clipped(tokens@, c as int),
{
    let ghost toks = tokens@;
    let n = tokens.len();
    let mut previous_end: u32 = 0;
    let mut idx: usize = 0;
    let mut found = false;
    proof {
        lemma_first_kept(toks, c as int, 0);
    }
    while idx < n && !found
        invariant
            toks == tokens@,
            n == toks.len(),
            clip_fits(toks, c as int),
            idx <= n,
            previous_end == rel_end(toks, idx as int),
            first_kept(toks, c as int, 0) == first_kept(toks, c as int, idx as int),
            found ==> idx < n && rel_end(toks, idx + 1) > c,
            idx <= first_kept(toks, c as int, 0),
        decreases 2 * (n - idx) + (if found { 0int } else { 1int }),
    {
        proof {
            lemma_first_kept(toks, c as int, idx as int);
            assert(rel_end(toks, idx + 1) <= u32::MAX);
        }
        let token = tokens[idx];
        let token_end = previous_end + token.delta_start + token.length;
        if token_end <= c {
            previous_end = token_end;
            proof {
                lemma_first_kept(toks, c as int, idx + 1);
            }
            idx += 1;
        } else {
            found = true;
        }
    }
    assert(first_kept(toks, c as int, idx as int) == idx);
    let mut out: Vec<SemanticToken> = Vec::new();
    if idx == n {
        assert(out@ =~= clipped(toks, c as int));
        return out;
    }
    proof {
        assert(rel_end(toks, idx + 1) <= u32::MAX);
    }
    let token = tokens[idx];
    let token_start = previous_end + token.delta_start;
    let token_end = token_start + token.length;
    if token_start < c {
        out.push(SemanticToken { delta_start: c, length: token_end - c, ..token });
    } else {
        out.push(SemanticToken { delta_start: token_start, ..token });
    }
    let mut k = idx + 1;
    while k < n
        invariant
            toks == tokens@,
            n == toks.len(),
            idx < k <= n,
            first_kept(toks, c as int, 0) == idx,
            out@.len() == k - idx,
            out@ =~= clipped(toks, c as int).take(k - idx),
            clipped(toks, c as int).len() == n - idx,
        decreases n - k,
    {
        assert(clipped(toks, c as int)[k - idx] == toks[k as int]);
        out.push(tokens[k]);
        k += 1;
    }
    assert(out@ =~= clipped(toks, c as int));
    out
}

/// The tokens of the lines laid out one after another, each non-empty line
/// opening with a token whose `delta_line` is the number of lines since the
/// last non-empty line before it (since line 0 for the first); empty lines
/// are skipped.
pub open spec fn join_lines(groups: Seq<(int, Seq<SemanticToken>)>, k: int, last: int) -> Seq<
    SemanticToken,
>
    decreases groups.len() - k,
{
    if k < 0 || k >= groups.len() {
        Seq::empty()
    } else if groups[k].1.len() == 0 {
        join_lines(groups, k + 1, last)
    } else {
        let (line, toks) = groups[k];
        let head = SemanticToken { delta_line: (line - last) as u32, ..toks[0] };
        toks.update(0, head) + join_lines(groups, k + 1, line)
    }
}

/// Each non-empty line comes at or after the non-empty line before it.
pub open spec fn lines_ordered(groups: Seq<(int, Seq<SemanticToken>)>, k: int, last: int) -> bool
    decreases groups.len() - k,
{
    if k < 0 || k >= groups.len() {
        true
    } else if groups[k].1.len() == 0 {
        lines_ordered(groups, k + 1, last)
    } else {
        last <= groups[k].0 && lines_ordered(groups, k + 1, groups[k].0)
    }
}

/// The lines' tokens, with the first line cut at column `start.character`
/// when it is the line `start.line`.
pub open spec fn clip_first(groups: Seq<(usize, Vec<SemanticToken>)>, start: Position) -> Seq<
    (int, Seq<SemanticToken>),
> {
    Seq::new(
        groups.len(),
        |k: int|
            (
                groups[k].0 as int,
                if k == 0 && groups[k].0 == start.line {
                    clipped(groups[k].1@, start.character as int)
                } else {
                    groups[k].1@
                },
            ),
    )
}

/// Lays out the highlights of a range of lines as one token stream whose
/// line deltas count from line 0 of the document.
///
/// `line_tokens` holds, in line order, each line's number and its tokens,
/// laid out by bytes from the line's start. The first line is cut at
/// `start.character` when it is `start.line`: the range starts there. A line
/// that is left without tokens is skipped.
pub fn highlight_range(line_tokens: Vec<(usize, Vec<SemanticToken>)>, start: Position) -> (r: Vec<
    SemanticToken,
>)
    requires
        line_tokens.len() > 0 && line_tokens[0].0 == start.line ==> clip_fits(
            line_tokens[0].1@,
            start.character as int,
        ),
        lines_ordered(clip_first(line_tokens@, start), 0, 0),
    ensures
        r@ == join_lines(clip_first(line_tokens@, start), 0, 0),
{
    let ghost groups = clip_first(line_tokens@, start);
    let n = line_tokens.len();
    let mut out: Vec<SemanticToken> = Vec::new();
    let mut last_line: usize = 0;
    let mut k: usize = 0;
    while k < n
        invariant
            groups == clip_first(line_tokens@, start),
            n == line_tokens.len(),
            k <= n,
            lines_ordered(groups, k as int, last_line as int),
            out@ + join_lines(groups, k as int, last_line as int) == join_lines(groups, 0, 0),
            n > 0 && line_tokens[0].0 == start.line ==> clip_fits(
                line_tokens[0].1@,
                start.character as int,
            ),
        decreases n - k,
    {
        let line = line_tokens[k].0;
        let cut: Vec<SemanticToken>;
        let tokens: &Vec<SemanticToken> = if k == 0 && line == start.line as usize {
            cut = clip_line(&line_tokens[0].1, start.character);
            &cut
        } else {
            &line_tokens[k].1
        };
        assert(tokens@ == groups[k as int].1);
        if tokens.len() > 0 {
            let ghost piece = tokens@.update(
                0,
                SemanticToken { delta_line: (line - last_line) as u32, ..tokens@[0] },
            );
            let first = tokens[0];
            #[verifier::truncate]
            let delta = (line - last_line) as u32;
            out.push(SemanticToken { delta_line: delta, ..first });
            let ghost before = out@.drop_last();
            let mut j: usize = 1;
            while j < tokens.len()
                invariant
                    1 <= j <= tokens@.len(),
                    piece.len() == tokens@.len(),
                    piece == tokens@.update(
                        0,
                        SemanticToken { delta_line: (line - last_line) as u32, ..tokens@[0] },
                    ),
                    out@ =~= before + piece.take(j as int),
                decreases tokens@.len() - j,
            {
                out.push(tokens[j]);
                j += 1;
            }
            assert(out@ =~= before + piece);
            assert(before + join_lines(groups, k as int, last_line as int) =~= before + piece
                + join_lines(groups, k + 1, line as int));
            last_line = line;
        }
        k += 1;
    }
    assert(out@ =~= join_lines(groups, 0, 0));
    out
}

/// Cutting a line's tokens at byte `c` drops exactly the tokens that end at
/// or before `c`, and moves nothing else: every token left ends where it
/// ended before, and none starts before `c`.
pub proof fn law_clip_keeps_layout(toks: Seq<SemanticToken>, c: int)
    requires
        0 <= c <= u32::MAX,
        clip_fits(toks, c),
    ensures
        ({
            let f = first_kept(toks, c, 0);
            let out = clipped(toks, c);
            &&& forall|j: int| 0 <= j < f ==> #[trigger] rel_end(toks, j + 1) <= c
            &&& out.len() == toks.len() - f
            &&& forall|k: int|
                0 <= k < out.len() ==> #[trigger] rel_end(out, k + 1) == rel_end(toks, f + k + 1)
            &&& forall|k: int|
                0 <= k < out.len() ==> rel_end(out, k) + #[trigger] out[k].delta_start >= c
        }),
{
    let f = first_kept(toks, c, 0);
    let out = clipped(toks, c);
    lemma_first_kept(toks, c, 0);
    lemma_kept_before(toks, c, 0);
    if f < toks.len() {
        lemma_rel_end_mono(toks, f);
        assert(rel_end(toks, f + 1) <= u32::MAX);
        lemma_clip_ends(toks, c, 0);
        assert forall|k: int| 0 <= k < out.len() implies #[trigger] rel_end(out, k + 1) == rel_end(
            toks,
            f + k + 1,
        ) by {
            lemma_clip_ends(toks, c, k);
        }
        assert forall|k: int| 0 <= k < out.len() implies rel_end(out, k) + #[trigger] out[k].delta_start
            >= c by {
            if k > 0 {
                lemma_clip_ends(toks, c, k - 1);
                lemma_rel_end_le(toks, f + 1, f + k);
            } else {
                let t = toks[f];
                let st = rel_end(toks, f) + t.delta_start;
                let en = rel_end(toks, f + 1);
                assert(out[0] == (if st < c {
                    SemanticToken { delta_start: c as u32, length: (en - c) as u32, ..t }
                } else {
                    SemanticToken { delta_start: st as u32, ..t }
                }));
                assert(rel_end(out, 0) == 0);
            }
        }
    }
}

proof fn lemma_rel_end_mono(toks: Seq<SemanticToken>, i: int)
    requires
        0 <= i < toks.len(),
    ensures
        rel_end(toks, i) <= rel_end(toks, i) + toks[i].delta_start <= rel_end(toks, i + 1),
        rel_end(toks, i) >= 0,
    decreases i,
{
    if i > 0 {
        lemma_rel_end_mono(toks, i - 1);
    }
}

proof fn lemma_rel_end_le(toks: Seq<SemanticToken>, i: int, j: int)
    requires
        0 <= i <= j <= toks.len(),
    ensures
        rel_end(toks, i) <= rel_end(toks, j),
    decreases j - i,
{
    if i < j {
        lemma_rel_end_mono(toks, j - 1);
        lemma_rel_end_le(toks, i, j - 1);
    }
}

proof fn lemma_kept_before(toks: Seq<SemanticToken>, c: int, i: int)
    requires
        0 <= i <= toks.len(),
        forall|j: int| 0 <= j < i ==> #[trigger] rel_end(toks, j + 1) <= c,
    ensures
        forall|j: int| 0 <= j < first_kept(toks, c, i) ==> #[trigger] rel_end(toks, j + 1) <= c,
    decreases toks.len() - i,
{
    if i < toks.len() && rel_end(toks, i + 1) <= c {
        lemma_kept_before(toks, c, i + 1);
    }
}

proof fn lemma_clip_ends(toks: Seq<SemanticToken>, c: int, k: int)
    requires
        0 <= c <= u32::MAX,
        clip_fits(toks, c),
        first_kept(toks, c, 0) < toks.len(),
        0 <= k < clipped(toks, c).len(),
    ensures
        rel_end(clipped(toks, c), k + 1) == rel_end(toks, first_kept(toks, c, 0) + k + 1),
    decreases k,
{
    let f = first_kept(toks, c, 0);
    let out = clipped(toks, c);
    lemma_first_kept(toks, c, 0);
    lemma_rel_end_mono(toks, f);
    assert(rel_end(toks, f + 1) <= u32::MAX);
    let t = toks[f];
    let st = rel_end(toks, f) + t.delta_start;
    let en = rel_end(toks, f + 1);
    assert(out[0] == (if st < c {
        SemanticToken { delta_start: c as u32, length: (en - c) as u32, ..t }
    } else {
        SemanticToken { delta_start: st as u32, ..t }
    }));
    assert(rel_end(out, 1) == rel_end(out, 0) + out[0].delta_start + out[0].length);
    assert(rel_end(out, 0) == 0);
    if k == 0 {
    } else {
        lemma_clip_ends(toks, c, k - 1);
        assert(out[k] == toks[f + k]);
    }
}

} // verus!
