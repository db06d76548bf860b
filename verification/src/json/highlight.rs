//! Highlighting of JSON text by lexeme.

use vstd::prelude::*;
use core::ops::Range;
use crate::text::{str_eq, starts_with, utf8_len, byte_len};
use crate::json::parse::{parse_for_each, values_spec};

verus! {

broadcast use vstd::string::group_string_axioms;

/// Highlight class of a span of JSON text.
#[derive(Debug, Clone, Copy, PartialEq, Eq, PartialOrd, Ord, Hash, Structural)]
pub enum TokenType {
    Keyword,
    String,
    Number,
    Operator,
}

/// Class of a value lexeme: a string (also an unterminated one), a
/// keyword literal, or anything else as a number.
pub open spec fn class_of(v: Seq<char>) -> TokenType {
    if v.len() > 0 && v[0] == '"' {
        TokenType::String
    } else if v == seq!['t', 'r', 'u', 'e'] || v == seq!['f', 'a', 'l', 's', 'e'] || v == seq![
        'n',
        'u',
        'l',
        'l',
    ] {
        TokenType::Keyword
    } else {
        TokenType::Number
    }
}

/// Byte offset where value lexeme `k` of `s` starts.
pub open spec fn value_start(s: Seq<char>, k: int) -> int {
    utf8_len(s.take(values_spec(s)[k].0)) as int
}

/// Byte offset where value lexeme `k` of `s` ends.
pub open spec fn value_end(s: Seq<char>, k: int) -> int {
    utf8_len(s.take(values_spec(s)[k].1)) as int
}

/// Byte offset where the highlighting of the first `k` value lexemes ends.
pub open spec fn covered_upto(s: Seq<char>, k: int) -> int {
    if k <= 0 {
        0
    } else {
        value_end(s, k - 1)
    }
}

/// Spans of the first `k` value lexemes of `s`, each preceded by an
/// operator span over the text since the previous one, if any.
pub open spec fn spans_upto(s: Seq<char>, k: int) -> Seq<(int, int, TokenType)>
    decreases k,
{
    if k <= 0 {
        seq![]
    } else {
        let gap = if covered_upto(s, k - 1) < value_start(s, k - 1) {
            seq![(covered_upto(s, k - 1), value_start(s, k - 1), TokenType::Operator)]
        } else {
            seq![]
        };
        let (a, b) = values_spec(s)[k - 1];
        spans_upto(s, k - 1) + gap + seq![
            (value_start(s, k - 1), value_end(s, k - 1), class_of(s.subrange(a, b))),
        ]
    }
}

/// Highlighting of the whole text: the value lexemes, the text between
/// them and the rest after the last one as operators.
pub open spec fn highlight_spec(s: Seq<char>) -> Seq<(int, int, TokenType)> {
    let n = values_spec(s).len() as int;
    let last = covered_upto(s, n);
    spans_upto(s, n) + if last != utf8_len(s) {
        seq![(last, utf8_len(s) as int, TokenType::Operator)]
    } else {
        seq![]
    }
}

/// Spans as integer triples.
pub open spec fn spans_view(v: Seq<(Range<usize>, TokenType)>) -> Seq<(int, int, TokenType)> {
    v.map_values(|p: (Range<usize>, TokenType)| (p.0.start as int, p.0.end as int, p.1))
}

fn class_of_text(v: &str) -> (t: TokenType)
    ensures
        t == class_of(v@),
{
    proof {
        reveal_strlit("\"");
        reveal_strlit("true");
        reveal_strlit("false");
        reveal_strlit("null");
        assert("\""@ =~= seq!['"']);
        assert("true"@ =~= seq!['t', 'r', 'u', 'e']);
        assert("false"@ =~= seq!['f', 'a', 'l', 's', 'e']);
        assert("null"@ =~= seq!['n', 'u', 'l', 'l']);
        if v@.len() > 0 && v@[0] == '"' {
            assert(v@.take(1) =~= seq!['"']);
        }
        if v@.len() >= 1 && v@.take(1) == seq!['"'] {
            assert(v@.take(1)[0] == v@[0]);
        }
    }
    if starts_with(v, "\"") {
        TokenType::String
    } else if str_eq(v, "true") || str_eq(v, "false") || str_eq(v, "null") {
        TokenType::Keyword
    } else {
        TokenType::Number
    }
}

/// Highlights JSON text: keys and strings as strings, `true`, `false` and
/// `null` as keywords, other values as numbers, everything between as
/// operators. Spans are byte ranges, in order.
pub fn highlight(s: &str) -> (r: Vec<(Range<usize>, TokenType)>)
    ensures
        spans_view(r@) == highlight_spec(s@),
{
    let values = parse_for_each(s);
    let total = byte_len(s);
    let mut r: Vec<(Range<usize>, TokenType)> = Vec::new();
    let mut last_end: usize = 0;
    let mut k: usize = 0;
    while k < values.len()
        invariant
            values.len() == values_spec(s@).len(),
            forall|j: int|
                0 <= j < values.len() ==> {
                    let (a, b) = #[trigger] values_spec(s@)[j];
                    &&& values@[j].0@ == s@.subrange(a, b)
                    &&& values@[j].1.start == utf8_len(s@.take(a))
                    &&& values@[j].1.end == utf8_len(s@.take(b))
                },
            k <= values.len(),
            last_end == covered_upto(s@, k as int),
            spans_view(r@) == spans_upto(s@, k as int),
        decreases values.len() - k,
    {
        let ghost before = r@;
        let text = values[k].0;
        let start = values[k].1.start;
        let end = values[k].1.end;
        assert(values_spec(s@)[k as int] == values_spec(s@)[k as int]);
        if last_end < start {
            r.push((Range { start: last_end, end: start }, TokenType::Operator));
        }
        r.push((Range { start, end }, class_of_text(text)));
        proof {
            let gap = if covered_upto(s@, k as int) < value_start(s@, k as int) {
                seq![(covered_upto(s@, k as int), value_start(s@, k as int), TokenType::Operator)]
            } else {
                seq![]
            };
            assert(spans_view(r@) =~= spans_view(before) + gap + seq![
                (value_start(s@, k as int), value_end(s@, k as int), class_of(text@)),
            ]);
        }
        last_end = end;
        k += 1;
    }
    let ghost before = r@;
    if last_end != total {
        r.push((Range { start: last_end, end: total }, TokenType::Operator));
    }
    assert(spans_view(r@) =~= highlight_spec(s@));
    r
}

/// Every value lexeme has its span among the first `k` lexemes' spans,
/// with its class.
proof fn lemma_spans_upto_has(s: Seq<char>, n: int, k: int)
    requires
        0 <= k < n <= values_spec(s).len(),
    ensures
        spans_upto(s, n).contains(
            (
                value_start(s, k),
                value_end(s, k),
                class_of(s.subrange(values_spec(s)[k].0, values_spec(s)[k].1)),
            ),
        ),
    decreases n,
{
    let e = (
        value_start(s, k),
        value_end(s, k),
        class_of(s.subrange(values_spec(s)[k].0, values_spec(s)[k].1)),
    );
    let prev = spans_upto(s, n - 1);
    let gap = if covered_upto(s, n - 1) < value_start(s, n - 1) {
        seq![(covered_upto(s, n - 1), value_start(s, n - 1), TokenType::Operator)]
    } else {
        seq![]
    };
    let (a, b) = values_spec(s)[n - 1];
    let last = seq![(value_start(s, n - 1), value_end(s, n - 1), class_of(s.subrange(a, b)))];
    assert(spans_upto(s, n) == prev + gap + last);
    if k < n - 1 {
        lemma_spans_upto_has(s, n - 1, k);
        let j = choose|j: int| 0 <= j < prev.len() && prev[j] == e;
        assert((prev + gap + last)[j] == e);
    } else {
        assert((prev + gap + last)[prev.len() + gap.len() as int] == e);
    }
}

/// The literals `true`, `false` and `null` are highlighted as keywords:
/// wherever a value lexeme of the text is one of them, the highlighting
/// has a keyword span over exactly its bytes.
pub proof fn law_literals_are_keywords(s: Seq<char>, k: int)
    requires
        0 <= k < values_spec(s).len(),
        ({
            let v = s.subrange(values_spec(s)[k].0, values_spec(s)[k].1);
            v == "true"@ || v == "false"@ || v == "null"@
        }),
    ensures
        highlight_spec(s).contains((value_start(s, k), value_end(s, k), TokenType::Keyword)),
{
    reveal_strlit("true");
    reveal_strlit("false");
    reveal_strlit("null");
    let v = s.subrange(values_spec(s)[k].0, values_spec(s)[k].1);
    assert("true"@ =~= seq!['t', 'r', 'u', 'e']);
    assert("false"@ =~= seq!['f', 'a', 'l', 's', 'e']);
    assert("null"@ =~= seq!['n', 'u', 'l', 'l']);
    assert(v[0] != '"');
    assert(class_of(v) == TokenType::Keyword);
    let n = values_spec(s).len() as int;
    lemma_spans_upto_has(s, n, k);
    let e = (value_start(s, k), value_end(s, k), TokenType::Keyword);
    let up = spans_upto(s, n);
    let j = choose|j: int| 0 <= j < up.len() && up[j] == e;
    let tail = if covered_upto(s, n) != utf8_len(s) {
        seq![(covered_upto(s, n), utf8_len(s) as int, TokenType::Operator)]
    } else {
        seq![]
    };
    assert(highlight_spec(s) == up + tail);
    assert((up + tail)[j] == e);
}

/// Strings, keys among them, are highlighted as strings, and every value
/// that is neither a string nor `true`, `false` or `null` as a number.
pub proof fn law_strings_and_numbers(s: Seq<char>, k: int)
    requires
        0 <= k < values_spec(s).len(),
    ensures
        ({
            let v = s.subrange(values_spec(s)[k].0, values_spec(s)[k].1);
            let class = if v.len() > 0 && v[0] == '"' {
                TokenType::String
            } else if v == "true"@ || v == "false"@ || v == "null"@ {
                TokenType::Keyword
            } else {
                TokenType::Number
            };
            highlight_spec(s).contains((value_start(s, k), value_end(s, k), class))
        }),
{
    reveal_strlit("true");
    reveal_strlit("false");
    reveal_strlit("null");
    assert("true"@ =~= seq!['t', 'r', 'u', 'e']);
    assert("false"@ =~= seq!['f', 'a', 'l', 's', 'e']);
    assert("null"@ =~= seq!['n', 'u', 'l', 'l']);
    let n = values_spec(s).len() as int;
    lemma_spans_upto_has(s, n, k);
    let v = s.subrange(values_spec(s)[k].0, values_spec(s)[k].1);
    let e = (value_start(s, k), value_end(s, k), class_of(v));
    let up = spans_upto(s, n);
    let j = choose|j: int| 0 <= j < up.len() && up[j] == e;
    let tail = if covered_upto(s, n) != utf8_len(s) {
        seq![(covered_upto(s, n), utf8_len(s) as int, TokenType::Operator)]
    } else {
        seq![]
    };
    assert(highlight_spec(s) == up + tail);
    assert((up + tail)[j] == e);
}

} // verus!
