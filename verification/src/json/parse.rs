//! Lenient, discarding lexer and path parser for JSON text being typed.
//!
//! The input is read character by character. Each lexeme changes a stack of
//! tokens; what stays on the stack at the end is the path from the root to
//! the end of the input (tokens off that path are mostly, not always,
//! discarded). A structural error that the path cannot survive makes the
//! whole parse fail.
//!
//! Positions are character indices into the input (`s@`).

use vstd::prelude::*;
use crate::text::{is_white_space, is_whitespace, chars_of, utf8_len, byte_offsets};
use core::ops::Range;
use vstd::string::StrSliceExecFns;

verus! {

broadcast use vstd::string::group_string_axioms;

/// A token on the parse stack, located by character positions.
/// `Key` spans the key's text without its quotes; `Value` spans the whole
/// lexeme, quotes included.
#[derive(Debug, Clone, Copy, PartialEq, Eq, Structural)]
pub enum RawToken {
    ObjectStart,
    ArrayStart,
    Key(usize, usize),
    Value(usize, usize),
}

/// Characters that end a bare value.
pub open spec fn is_structural(c: char) -> bool {
    c == '{' || c == '}' || c == '[' || c == ']' || c == ':' || c == ',' || c == '"'
}

/// End (exclusive) of a string literal whose body continues at `j`;
/// `escaped` tells whether the character before `j` is an unpaired
/// backslash. An unterminated string runs to the end of the input.
pub open spec fn string_end(s: Seq<char>, j: int, escaped: bool) -> int
    decreases s.len() - j,
{
    if j >= s.len() {
        s.len() as int
    } else if s[j] == '"' && !escaped {
        j + 1
    } else if s[j] == '\\' {
        string_end(s, j + 1, !escaped)
    } else {
        string_end(s, j + 1, false)
    }
}

/// End (exclusive) of a bare value that continues at `j`: the first
/// structural or white-space character, or the end of the input.
pub open spec fn bare_end(s: Seq<char>, j: int) -> int
    decreases s.len() - j,
{
    if j >= s.len() {
        s.len() as int
    } else if is_structural(s[j]) || is_white_space(s[j]) {
        j
    } else {
        bare_end(s, j + 1)
    }
}

/// Characters that form a lexeme of their own.
pub open spec fn is_punct(c: char) -> bool {
    c == ' ' || c == '{' || c == '[' || c == '}' || c == ']' || c == ':' || c == ','
}

/// End (exclusive) of the lexeme that starts at `i`.
pub open spec fn lexeme_end(s: Seq<char>, i: int) -> int {
    if s[i] == '"' {
        string_end(s, i + 1, false)
    } else if is_punct(s[i]) {
        i + 1
    } else {
        bare_end(s, i + 1)
    }
}

/// Whether a `{` or `[` may follow the stack `t`.
pub open spec fn opens_value(t: Seq<RawToken>) -> bool {
    t.len() == 0 || t.last() is ArrayStart || t.last() is Key
}

/// Drops a key on top of the stack, if there is one.
pub open spec fn drop_key(t: Seq<RawToken>) -> Seq<RawToken> {
    if t.len() > 0 && t.last() is Key {
        t.drop_last()
    } else {
        t
    }
}

/// Pops up to and including the innermost open object (`object`) or array,
/// then the key that led to it; `None` when there is none to close.
pub open spec fn close(t: Seq<RawToken>, object: bool) -> Option<Seq<RawToken>>
    decreases t.len(),
{
    if t.len() == 0 {
        None
    } else if (object && t.last() is ObjectStart) || (!object && t.last() is ArrayStart) {
        Some(drop_key(t.drop_last()))
    } else {
        close(t.drop_last(), object)
    }
}

/// Pops down to the innermost open object or array (or the empty stack).
pub open spec fn unwind(t: Seq<RawToken>) -> Seq<RawToken>
    decreases t.len(),
{
    if t.len() == 0 || t.last() is ObjectStart || t.last() is ArrayStart {
        t
    } else {
        unwind(t.drop_last())
    }
}

/// The lexeme `a..b` is a complete quoted string.
pub open spec fn is_quoted(s: Seq<char>, a: int, b: int) -> bool {
    b - a >= 2 && s[a] == '"' && s[b - 1] == '"'
}

/// Effect of the lexeme at `i` on the stack `t`; `None` is a parse error.
pub open spec fn step(s: Seq<char>, i: int, t: Seq<RawToken>) -> Option<Seq<RawToken>> {
    let c = s[i];
    if c == ' ' {
        Some(t)
    } else if c == '{' || c == '[' {
        if opens_value(t) {
            Some(t.push(if c == '{' { RawToken::ObjectStart } else { RawToken::ArrayStart }))
        } else {
            None
        }
    } else if c == '}' || c == ']' {
        close(t, c == '}')
    } else if c == ':' {
        if t.len() > 0 && t.last() is Value && is_quoted(
            s,
            t.last()->Value_0 as int,
            t.last()->Value_1 as int,
        ) {
            Some(
                t.drop_last().push(
                    RawToken::Key((t.last()->Value_0 + 1) as usize, (t.last()->Value_1 - 1) as usize),
                ),
            )
        } else {
            None
        }
    } else if c == ',' {
        Some(unwind(t))
    } else {
        Some(t.push(RawToken::Value(i as usize, lexeme_end(s, i) as usize)))
    }
}

/// Whether the lexeme starting with `c` is a value.
pub open spec fn starts_value(c: char) -> bool {
    !is_punct(c)
}

/// Every lexeme is non-empty and stays within the input.
pub proof fn lemma_lexeme_end(s: Seq<char>, i: int)
    requires
        0 <= i < s.len(),
    ensures
        i < lexeme_end(s, i) <= s.len(),
{
    if s[i] == '"' {
        lemma_string_end(s, i + 1, false);
    } else if !is_punct(s[i]) {
        lemma_bare_end(s, i + 1);
    }
}

proof fn lemma_string_end(s: Seq<char>, j: int, escaped: bool)
    requires
        0 <= j <= s.len(),
    ensures
        j <= string_end(s, j, escaped) <= s.len(),
    decreases s.len() - j,
{
    if j < s.len() {
        lemma_string_end(s, j + 1, !escaped);
        lemma_string_end(s, j + 1, false);
    }
}

proof fn lemma_bare_end(s: Seq<char>, j: int)
    requires
        0 <= j <= s.len(),
    ensures
        j <= bare_end(s, j) <= s.len(),
    decreases s.len() - j,
{
    if j < s.len() {
        lemma_bare_end(s, j + 1);
    }
}

/// The stack after reading the input from position `i` on, starting from
/// the stack `t`; `None` if a lexeme fails.
pub open spec fn run(s: Seq<char>, i: int, t: Seq<RawToken>) -> Option<Seq<RawToken>>
    decreases s.len() - i,
{
    if i < 0 || i >= s.len() {
        Some(t)
    } else {
        match step(s, i, t) {
            None => None,
            Some(t2) => {
                proof {
                    lemma_lexeme_end(s, i);
                }
                run(s, lexeme_end(s, i), t2)
            },
        }
    }
}

/// The value lexemes read from position `i` on, each as its range, up to
/// the end of the input or the lexeme that fails.
pub open spec fn values_from(s: Seq<char>, i: int, t: Seq<RawToken>) -> Seq<(int, int)>
    decreases s.len() - i,
{
    if i < 0 || i >= s.len() {
        seq![]
    } else {
        match step(s, i, t) {
            None => seq![],
            Some(t2) => {
                proof {
                    lemma_lexeme_end(s, i);
                }
                (if starts_value(s[i]) {
                    seq![(i, lexeme_end(s, i))]
                } else {
                    seq![]
                }) + values_from(s, lexeme_end(s, i), t2)
            },
        }
    }
}

/// The stack that the whole input leaves.
pub open spec fn parse_spec(s: Seq<char>) -> Option<Seq<RawToken>> {
    run(s, 0, seq![])
}

/// Every value lexeme of the input, up to a failing lexeme.
pub open spec fn values_spec(s: Seq<char>) -> Seq<(int, int)> {
    values_from(s, 0, seq![])
}

/// Every position in a token lies within the input, ranges ascending.
pub open spec fn token_in(t: RawToken, n: int) -> bool {
    match t {
        RawToken::Key(a, b) => a <= b <= n,
        RawToken::Value(a, b) => a <= b <= n,
        _ => true,
    }
}

pub open spec fn tokens_in(t: Seq<RawToken>, n: int) -> bool {
    forall|k: int| 0 <= k < t.len() ==> token_in(#[trigger] t[k], n)
}

fn find_string_end(chars: &Vec<char>, start: usize) -> (e: usize)
    requires
        start <= chars.len(),
    ensures
        e == string_end(chars@, start as int, false),
{
    let mut j = start;
    let mut escaped = false;
    while j < chars.len()
        invariant
            start <= j <= chars.len(),
            string_end(chars@, start as int, false) == string_end(chars@, j as int, escaped),
        decreases chars.len() - j,
    {
        let c = chars[j];
        if c == '"' && !escaped {
            return j + 1;
        }
        if c == '\\' {
            escaped = !escaped;
        } else {
            escaped = false;
        }
        j += 1;
    }
    j
}

fn find_bare_end(chars: &Vec<char>, start: usize) -> (e: usize)
    requires
        start <= chars.len(),
    ensures
        e == bare_end(chars@, start as int),
{
    let mut j = start;
    while j < chars.len()
        invariant
            start <= j <= chars.len(),
            bare_end(chars@, start as int) == bare_end(chars@, j as int),
        decreases chars.len() - j,
    {
        let c = chars[j];
        if c == '{' || c == '}' || c == '[' || c == ']' || c == ':' || c == ',' || c == '"'
            || is_whitespace(c) {
            return j;
        }
        j += 1;
    }
    j
}

fn close_stack(tokens: &mut Vec<RawToken>, object: bool, n: Ghost<int>) -> (ok: bool)
    requires
        tokens_in(old(tokens)@, n@),
    ensures
        ok == close(old(tokens)@, object) is Some,
        ok ==> final(tokens)@ == close(old(tokens)@, object)->Some_0,
        tokens_in(final(tokens)@, n@),
{
    loop
        invariant
            close(tokens@, object) == close(old(tokens)@, object),
            tokens_in(tokens@, n@),
        decreases tokens.len(),
    {
        let ghost cur = tokens@;
        let top = tokens.pop();
        match top {
            None => {
                assert(close(cur, object) is None);
                return false;
            },
            Some(t) => {
                let closes = if object {
                    matches!(t, RawToken::ObjectStart)
                } else {
                    matches!(t, RawToken::ArrayStart)
                };
                assert(close(cur, object) == if closes {
                    Some(drop_key(cur.drop_last()))
                } else {
                    close(cur.drop_last(), object)
                });
                if closes {
                    let key_on_top = match tokens.last() {
                        Some(RawToken::Key(_, _)) => true,
                        _ => false,
                    };
                    if key_on_top {
                        tokens.pop();
                    }
                    return true;
                }
            },
        }
    }
}

fn unwind_stack(tokens: &mut Vec<RawToken>, n: Ghost<int>)
    requires
        tokens_in(old(tokens)@, n@),
    ensures
        final(tokens)@ == unwind(old(tokens)@),
        tokens_in(final(tokens)@, n@),
{
    loop
        invariant
            unwind(tokens@) == unwind(old(tokens)@),
            tokens_in(tokens@, n@),
        decreases tokens.len(),
    {
        let at_boundary = match tokens.last() {
            None => true,
            Some(RawToken::ObjectStart) => true,
            Some(RawToken::ArrayStart) => true,
            _ => false,
        };
        if at_boundary {
            return;
        }
        tokens.pop();
    }
}

/// Widens the pairs of a value list to integers.
pub open spec fn int_ranges(v: Seq<(usize, usize)>) -> Seq<(int, int)> {
    v.map_values(|p: (usize, usize)| (p.0 as int, p.1 as int))
}

/// Reads the whole input: the stack it leaves (`None` on a parse error)
/// and every value lexeme read up to the end or the error.
pub fn scan(chars: &Vec<char>) -> (r: (Option<Vec<RawToken>>, Vec<(usize, usize)>))
    ensures
        match r.0 {
            Some(t) => parse_spec(chars@) == Some(t@) && tokens_in(t@, chars@.len() as int),
            None => parse_spec(chars@) is None,
        },
        int_ranges(r.1@) == values_spec(chars@),
{
    let ghost s = chars@;
    let n = chars.len();
    let mut tokens: Vec<RawToken> = Vec::new();
    let mut values: Vec<(usize, usize)> = Vec::new();
    let mut i: usize = 0;
    assert(int_ranges(values@) + values_from(s, 0, tokens@) =~= values_from(s, 0, tokens@));
    while i < n
        invariant
            s == chars@,
            n == chars.len(),
            i <= n,
            run(s, 0, seq![]) == run(s, i as int, tokens@),
            values_spec(s) == int_ranges(values@) + values_from(s, i as int, tokens@),
            tokens_in(tokens@, n as int),
        decreases n - i,
    {
        let c = chars[i];
        proof {
            lemma_lexeme_end(s, i as int);
        }
        let end: usize = if c == '"' {
            find_string_end(chars, i + 1)
        } else if c == ' ' || c == '{' || c == '[' || c == '}' || c == ']' || c == ':' || c
            == ',' {
            i + 1
        } else {
            find_bare_end(chars, i + 1)
        };
        assert(end == lexeme_end(s, i as int));
        let ghost before = tokens@;
        let ghost vbefore = values@;
        if c == ' ' {
        } else if c == '{' || c == '[' {
            let opens = match tokens.last() {
                None => true,
                Some(RawToken::ArrayStart) => true,
                Some(RawToken::Key(_, _)) => true,
                _ => false,
            };
            if !opens {
                assert(int_ranges(values@) + seq![] =~= int_ranges(values@));
                return (None, values);
            }
            if c == '{' {
                tokens.push(RawToken::ObjectStart);
            } else {
                tokens.push(RawToken::ArrayStart);
            }
        } else if c == '}' || c == ']' {
            if !close_stack(&mut tokens, c == '}', Ghost(n as int)) {
                assert(int_ranges(values@) + seq![] =~= int_ranges(values@));
                return (None, values);
            }
        } else if c == ':' {
            let top = tokens.pop();
            match top {
                Some(RawToken::Value(a, b)) => {
                    if b - a >= 2 && chars[a] == '"' && chars[b - 1] == '"' {
                        tokens.push(RawToken::Key(a + 1, b - 1));
                    } else {
                        assert(int_ranges(values@) + seq![] =~= int_ranges(values@));
                        return (None, values);
                    }
                },
                _ => {
                    assert(int_ranges(values@) + seq![] =~= int_ranges(values@));
                    return (None, values);
                },
            }
        } else if c == ',' {
            unwind_stack(&mut tokens, Ghost(n as int));
        } else {
            values.push((i, end));
            tokens.push(RawToken::Value(i, end));
        }
        proof {
            assert(step(s, i as int, before) == Some(tokens@));
            if starts_value(c) {
                assert(int_ranges(values@) =~= int_ranges(vbefore) + seq![(i as int, end as int)]);
            } else {
                assert(int_ranges(values@) =~= int_ranges(vbefore));
            }
            assert(int_ranges(values@) + values_from(s, end as int, tokens@) =~= int_ranges(vbefore)
                + values_from(s, i as int, before));
        }
        i = end;
    }
    assert(int_ranges(values@) + seq![] =~= int_ranges(values@));
    (Some(tokens), values)
}

/// A token of the parse path: the start of an object or an array, a key
/// (without its quotes), or a value lexeme (a string keeps its quotes).
#[derive(Debug, Clone, Copy, PartialEq, Eq, PartialOrd, Ord, Hash)]
pub enum Token<'a> {
    ObjectStart,
    ArrayStart,
    Key(&'a str),
    Value(&'a str),
}

/// `t` is the raw token `raw` with its text taken from `s`.
pub open spec fn shows(t: Token, raw: RawToken, s: Seq<char>) -> bool {
    match raw {
        RawToken::ObjectStart => t is ObjectStart,
        RawToken::ArrayStart => t is ArrayStart,
        RawToken::Key(a, b) => t matches Token::Key(k) && k@ == s.subrange(a as int, b as int),
        RawToken::Value(a, b) => t matches Token::Value(v) && v@ == s.subrange(a as int, b as int),
    }
}

/// The tokens `v` show the raw tokens `raw` of the text `s`, one for one.
pub open spec fn shows_all(v: Seq<Token>, raw: Seq<RawToken>, s: Seq<char>) -> bool {
    v.len() == raw.len() && forall|k: int| 0 <= k < v.len() ==> shows(#[trigger] v[k], raw[k], s)
}

/// Gives the raw tokens their text.
pub fn texts_of<'a>(s: &'a str, raw: &Vec<RawToken>) -> (v: Vec<Token<'a>>)
    requires
        tokens_in(raw@, s@.len() as int),
    ensures
        shows_all(v@, raw@, s@),
{
    let mut v: Vec<Token<'a>> = Vec::new();
    let mut k: usize = 0;
    while k < raw.len()
        invariant
            tokens_in(raw@, s@.len() as int),
            k <= raw.len(),
            v.len() == k,
            forall|j: int| 0 <= j < k ==> shows(#[trigger] v@[j], raw@[j], s@),
        decreases raw.len() - k,
    {
        let t = match raw[k] {
            RawToken::ObjectStart => Token::ObjectStart,
            RawToken::ArrayStart => Token::ArrayStart,
            RawToken::Key(a, b) => Token::Key(s.substring_char(a, b)),
            RawToken::Value(a, b) => Token::Value(s.substring_char(a, b)),
        };
        proof {
            assert(token_in(raw@[k as int], s@.len() as int));
        }
        v.push(t);
        k += 1;
    }
    v
}

impl<'a> Token<'a> {
    /// Leniently parses JSON text and returns the path of tokens that
    /// reaches its end (not guaranteed to be a single chain); `None` on a
    /// structural error.
    pub fn parse(s: &'a str) -> (r: Option<Vec<Token<'a>>>)
        ensures
            match r {
                Some(v) => parse_spec(s@) matches Some(raw) && shows_all(v@, raw, s@),
                None => parse_spec(s@) is None,
            },
    {
        let chars = chars_of(s);
        let (tokens, _) = scan(&chars);
        match tokens {
            Some(raw) => Some(texts_of(s, &raw)),
            None => None,
        }
    }
}

/// Lenient lexing and path parsing of JSON text: the tokens passed from the
/// root to the end of the text. Some tokens off the path are discarded,
/// not necessarily all of them. `None` on a structural error.
pub fn parse<'a>(s: &'a str) -> (r: Option<Vec<Token<'a>>>)
    ensures
        match r {
            Some(v) => parse_spec(s@) matches Some(raw) && shows_all(v@, raw, s@),
            None => parse_spec(s@) is None,
        },
{
    Token::parse(s)
}

/// Every value lexeme of JSON text with its byte range, in order. Unlike
/// [`parse`] nothing is discarded; reading stops at a structural error.
pub fn parse_for_each<'a>(s: &'a str) -> (r: Vec<(&'a str, Range<usize>)>)
    ensures
        r.len() == values_spec(s@).len(),
        forall|k: int|
            0 <= k < r.len() ==> {
                let (a, b) = #[trigger] values_spec(s@)[k];
                &&& r@[k].0@ == s@.subrange(a, b)
                &&& r@[k].1.start == utf8_len(s@.take(a))
                &&& r@[k].1.end == utf8_len(s@.take(b))
            },
{
    let chars = chars_of(s);
    let offsets = byte_offsets(s, &chars);
    let (_, values) = scan(&chars);
    let ghost spans = values_spec(s@);
    proof {
        assert forall|k: int| 0 <= k < values.len() implies #[trigger] values@[k].0
            <= values@[k].1 <= chars.len() by {
            assert(int_ranges(values@)[k] == spans[k]);
            lemma_values_in(s@, 0, seq![], k);
        }
    }
    let mut r: Vec<(&'a str, Range<usize>)> = Vec::new();
    let mut k: usize = 0;
    while k < values.len()
        invariant
            int_ranges(values@) == spans,
            spans == values_spec(s@),
            forall|j: int|
                0 <= j < values.len() ==> #[trigger] values@[j].0 <= values@[j].1 <= chars.len(),
            chars@ == s@,
            offsets.len() == chars.len() + 1,
            forall|i: int| 0 <= i <= chars.len() ==> offsets@[i] == utf8_len(#[trigger] s@.take(i)),
            k <= values.len(),
            r.len() == k,
            forall|j: int|
                0 <= j < k ==> {
                    let (a, b) = #[trigger] spans[j];
                    &&& r@[j].0@ == s@.subrange(a, b)
                    &&& r@[j].1.start == utf8_len(s@.take(a))
                    &&& r@[j].1.end == utf8_len(s@.take(b))
                },
        decreases values.len() - k,
    {
        let (a, b) = values[k];
        assert(spans[k as int] == (a as int, b as int));
        let text = s.substring_char(a, b);
        r.push((text, Range { start: offsets[a], end: offsets[b] }));
        k += 1;
    }
    r
}

/// Every value lexeme lies within the input, its range ascending.
proof fn lemma_values_in(s: Seq<char>, i: int, t: Seq<RawToken>, k: int)
    requires
        0 <= k < values_from(s, i, t).len(),
    ensures
        0 <= values_from(s, i, t)[k].0 <= values_from(s, i, t)[k].1 <= s.len(),
    decreases s.len() - i,
{
    if 0 <= i < s.len() {
        lemma_lexeme_end(s, i);
        match step(s, i, t) {
            None => {},
            Some(t2) => {
                let head: Seq<(int, int)> = if starts_value(s[i]) {
                    seq![(i, lexeme_end(s, i))]
                } else {
                    seq![]
                };
                if k >= head.len() {
                    lemma_values_in(s, lexeme_end(s, i), t2, k - head.len());
                }
            },
        }
    }
}

} // verus!
