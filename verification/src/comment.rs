//! Completion inside the comment that ends a line: the `nolint:` keyword,
//! then the diagnostic codes that it silences, separated by `|`.

use vstd::prelude::*;
use crate::position::{Position, Range, make_span, span_ending};
use crate::text::{is_prefix, starts_with, byte_len, utf8_len, chars_of};
use crate::std_ext::string_push;
use crate::command::{PrimaryCompletion, CompletionView, ItemKind, completions_view};

verus! {

/// The number of diagnostic codes.
pub const LINT_CODE_COUNT: u32 = 16;

/// The last `n` decimal digits of `x`, most significant first, with
/// leading zeros.
pub open spec fn dec_digits(x: int, n: nat) -> Seq<char>
    decreases n,
{
    if n == 0 {
        Seq::empty()
    } else {
        dec_digits(x / 10, (n - 1) as nat).push((x % 10 + 48) as char)
    }
}

/// The diagnostic code numbered `k`: `WG` and three digits.
pub open spec fn lint_code(k: int) -> Seq<char> {
    seq!['W', 'G'] + dec_digits(k, 3)
}

/// What follows the last `c` in `s`; all of `s` when it holds none.
pub open spec fn after_last(s: Seq<char>, c: char) -> Seq<char>
    decreases s.len(),
{
    if s.len() == 0 {
        s
    } else if s.last() == c {
        Seq::empty()
    } else {
        after_last(s.drop_last(), c).push(s.last())
    }
}

/// The completion of the `nolint` keyword.
pub open spec fn nolint_item(span: Range) -> CompletionView {
    CompletionView {
        name: "nolint"@,
        kind: ItemKind::Keyword,
        description: Some("诊断抑制配置"@),
        document: None,
        sort_key: None,
        span,
        insert_text: Some("nolint:$1;$0"@),
    }
}

/// The completion of a diagnostic code.
pub open spec fn code_item(code: Seq<char>, span: Range) -> CompletionView {
    CompletionView {
        name: code,
        kind: ItemKind::EnumMember,
        description: None,
        document: None,
        sort_key: None,
        span,
        insert_text: None,
    }
}

/// The completions of the codes numbered 1 to `n` that begin with `current`.
pub open spec fn code_items(current: Seq<char>, span: Range, n: int) -> Seq<CompletionView>
    decreases n,
{
    if n <= 0 {
        Seq::empty()
    } else {
        code_items(current, span, n - 1) + if is_prefix(current, lint_code(n)) {
            seq![code_item(lint_code(n), span)]
        } else {
            Seq::empty()
        }
    }
}

/// What completes the comment text `input` typed before `position`: the
/// `nolint` keyword while `input` is still part of `nolint:`; after it, and
/// until a `;` closes the list, the codes that begin with the code being
/// typed (the text after the last `|`); else nothing.
pub open spec fn comment_completions(input: Seq<char>, position: Position) -> Seq<CompletionView> {
    let rest = input.skip("nolint:"@.len() as int);
    let current = after_last(rest, '|');
    if is_prefix(input, "nolint:"@) {
        seq![nolint_item(span_ending(position, utf8_len(input) as usize))]
    } else if is_prefix("nolint:"@, input) && !rest.contains(';') {
        code_items(current, span_ending(position, utf8_len(current) as usize), LINT_CODE_COUNT as int)
    } else {
        Seq::empty()
    }
}

proof fn lemma_after_last(s: Seq<char>, c: char, k: int)
    requires
        -1 <= k < s.len(),
        k >= 0 ==> s[k] == c,
        forall|j: int| k < j < s.len() ==> s[j] != c,
    ensures
        after_last(s, c) == s.skip(k + 1),
    decreases s.len(),
{
    if s.len() > 0 {
        if s.last() == c {
            assert(s.skip(k + 1) =~= Seq::<char>::empty());
        } else {
            lemma_after_last(s.drop_last(), c, k);
            assert(s.skip(k + 1) =~= s.drop_last().skip(k + 1).push(s.last()));
        }
    } else {
        assert(s.skip(k + 1) =~= s);
    }
}

/// Completes the comment text `input` typed before `position` (see
/// `comment_completions`).
pub fn complete_comment(input: &str, position: Position) -> (r: Vec<PrimaryCompletion>)
    ensures
        completions_view(r@) == comment_completions(input@, position),
{
    proof {
        reveal_strlit("nolint:");
    }
    let mut out: Vec<PrimaryCompletion> = Vec::new();
    if starts_with("nolint:", input) {
        out.push(PrimaryCompletion {
            name: String::from_str("nolint"),
            kind: ItemKind::Keyword,
            description: Some(String::from_str("诊断抑制配置")),
            document: None,
            sort_key: None,
            span: make_span(position, byte_len(input)),
            insert_text: Some(String::from_str("nolint:$1;$0")),
        });
        assert(completions_view(out@) =~= comment_completions(input@, position));
        return out;
    }
    if !starts_with(input, "nolint:") {
        assert(completions_view(out@) =~= comment_completions(input@, position));
        return out;
    }
    let chars = chars_of(input);
    let n = chars.len();
    let ghost rest = input@.skip(7);
    let mut closed = false;
    let mut last_bar: usize = 6;
    let mut i: usize = 7;
    while i < n
        invariant
            chars@ == input@,
            n == chars@.len(),
            7 <= i <= n,
            rest == input@.skip(7),
            6 <= last_bar < i,
            last_bar > 6 ==> chars@[last_bar as int] == '|',
            forall|j: int| last_bar < j < i ==> chars@[j] != '|',
            closed == exists|j: int| 7 <= j < i && chars@[j] == ';',
        decreases n - i,
    {
        if chars[i] == ';' {
            closed = true;
        }
        if chars[i] == '|' {
            last_bar = i;
        }
        i += 1;
    }
    assert(closed == rest.contains(';')) by {
        if closed {
            let j = choose|j: int| 7 <= j < n && chars@[j] == ';';
            assert(rest[j - 7] == ';');
        }
        if rest.contains(';') {
            let j = choose|j: int| 0 <= j < rest.len() && rest[j] == ';';
            assert(chars@[j + 7] == ';');
        }
    }
    if closed {
        assert(completions_view(out@) =~= comment_completions(input@, position));
        return out;
    }
    let current = input.substring_char(last_bar + 1, n);
    proof {
        lemma_after_last(rest, '|', last_bar - 7);
        assert(rest.skip(last_bar - 7 + 1) =~= current@);
    }
    let span = make_span(position, byte_len(current));
    let mut k: u32 = 1;
    while k <= LINT_CODE_COUNT
        invariant
            1 <= k <= LINT_CODE_COUNT + 1,
            completions_view(out@) == code_items(current@, span, k - 1),
        decreases LINT_CODE_COUNT + 1 - k,
    {
        let mut code = String::from_str("WG");
        proof {
            reveal_strlit("WG");
        }
        string_push(&mut code, '0');
        let tens = ((k / 10) as u8 + 48) as char;
        let ones = ((k % 10) as u8 + 48) as char;
        string_push(&mut code, tens);
        string_push(&mut code, ones);
        proof {
            assert("WG"@ =~= seq!['W', 'G']);
            let x = k as int;
            assert(x / 10 / 10 == 0 && x / 10 / 10 / 10 == 0);
            assert(x / 10 % 10 == x / 10);
            assert(dec_digits(x / 10 / 10 / 10, 0) =~= Seq::<char>::empty());
            assert(dec_digits(x / 10 / 10, 1) =~= seq!['0']);
            assert(dec_digits(x / 10, 2) =~= seq!['0', tens]);
            assert(dec_digits(x, 3) =~= seq!['0', tens, ones]);
            assert(code@ =~= lint_code(x));
        }
        let ghost before = completions_view(out@);
        if starts_with(code.as_str(), current) {
            out.push(PrimaryCompletion {
                name: code,
                kind: ItemKind::EnumMember,
                description: None,
                document: None,
                sort_key: None,
                span,
                insert_text: None,
            });
            assert(completions_view(out@) =~= before + seq![code_item(lint_code(k as int), span)]);
        } else {
            assert(completions_view(out@) =~= before);
        }
        k += 1;
    }
    assert(completions_view(out@) =~= comment_completions(input@, position));
    out
}

} // verus!
