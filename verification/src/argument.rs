//! Completion of argument values chosen from a fixed list: font sizes,
//! easing curves, and any list of names with descriptions.

use vstd::prelude::*;
use crate::position::{Position, Range, make_span, span_ending};
use crate::text::{is_prefix, starts_with, byte_len, utf8_len};
use crate::std_ext::string_push;
use crate::command::{PrimaryCompletion, CompletionView, ItemKind, completions_view};

verus! {

/// The decimal digits of `x`, most significant first.
pub open spec fn decimal(x: nat) -> Seq<char>
    decreases x,
{
    if x < 10 {
        seq![(x + 48) as char]
    } else {
        decimal(x / 10).push((x % 10 + 48) as char)
    }
}

/// The decimal digits of `x`, with zeros in front up to three digits.
pub open spec fn decimal3(x: nat) -> Seq<char> {
    if x < 10 {
        seq!['0', '0'] + decimal(x)
    } else if x < 100 {
        seq!['0'] + decimal(x)
    } else {
        decimal(x)
    }
}

/// Appends the decimal digits of `x` to `s`.
fn push_decimal(s: &mut String, x: usize)
    ensures
        final(s)@ == old(s)@ + decimal(x as nat),
    decreases x,
{
    if x >= 10 {
        push_decimal(s, x / 10);
    }
    let d = (x % 10) as u8;
    string_push(s, (d + 48) as char);
    proof {
        if x >= 10 {
            assert(decimal(x as nat) == decimal((x / 10) as nat).push(((x % 10) + 48) as char));
        }
    }
}

/// The completion of a value from a list: its name, its description, and a
/// sort key made of its place in the list and its name; the name is what
/// it inserts.
pub open spec fn enum_item(
    i: nat,
    name: Seq<char>,
    description: Seq<char>,
    kind: ItemKind,
    span: Range,
) -> CompletionView {
    CompletionView {
        name,
        kind,
        description: Some(description),
        document: None,
        sort_key: Some(decimal3(i) + seq!['_'] + name),
        span,
        insert_text: None,
    }
}

/// The completions of the first `n` values of `items` whose names begin
/// with `input`.
pub open spec fn enum_items(
    items: Seq<(Seq<char>, Seq<char>)>,
    kind: ItemKind,
    input: Seq<char>,
    span: Range,
    n: int,
) -> Seq<CompletionView>
    decreases n,
{
    if n <= 0 {
        Seq::empty()
    } else {
        enum_items(items, kind, input, span, n - 1) + if is_prefix(input, items[n - 1].0) {
            seq![enum_item((n - 1) as nat, items[n - 1].0, items[n - 1].1, kind, span)]
        } else {
            Seq::empty()
        }
    }
}

/// A list of names with descriptions, as plain values.
pub open spec fn pairs_view(items: Seq<(&str, &str)>) -> Seq<(Seq<char>, Seq<char>)> {
    items.map_values(|p: (&str, &str)| (p.0@, p.1@))
}

/// Completes the value `input`, typed before `position`, from the names of
/// `items`, each offered with its description.
pub fn complete_enum(items: &[(&str, &str)], kind: ItemKind, input: &str, position: Position) -> (r:
    Vec<PrimaryCompletion>)
    ensures
        completions_view(r@) == enum_items(
            pairs_view(items@),
            kind,
            input@,
            span_ending(position, utf8_len(input@) as usize),
            items@.len() as int,
        ),
{
    let ghost view = pairs_view(items@);
    let span = make_span(position, byte_len(input));
    let mut out: Vec<PrimaryCompletion> = Vec::new();
    let mut i: usize = 0;
    while i < items.len()
        invariant
            view == pairs_view(items@),
            i <= items@.len(),
            span == span_ending(position, utf8_len(input@) as usize),
            completions_view(out@) == enum_items(view, kind, input@, span, i as int),
        decreases items@.len() - i,
    {
        let (name, description) = items[i];
        assert(view[i as int] == (name@, description@));
        let ghost before = completions_view(out@);
        if starts_with(name, input) {
            let mut sort_key = String::from_str("");
            proof {
                reveal_strlit("");
            }
            if i < 10 {
                string_push(&mut sort_key, '0');
                string_push(&mut sort_key, '0');
            } else if i < 100 {
                string_push(&mut sort_key, '0');
            }
            push_decimal(&mut sort_key, i);
            string_push(&mut sort_key, '_');
            sort_key.append(name);
            assert(sort_key@ =~= decimal3(i as nat) + seq!['_'] + name@);
            out.push(PrimaryCompletion {
                name: String::from_str(name),
                kind,
                description: Some(String::from_str(description)),
                document: None,
                sort_key: Some(sort_key),
                span,
                insert_text: None,
            });
            assert(completions_view(out@) =~= before + seq![
                enum_item(i as nat, name@, description@, kind, span),
            ]);
        } else {
            assert(completions_view(out@) =~= before);
        }
        i += 1;
    }
    out
}


/// The font sizes of a text box, with their descriptions.
pub open spec fn font_sizes() -> Seq<(Seq<char>, Seq<char>)> {
    seq![("small"@, "小号"@), ("medium"@, "中号"@), ("large"@, "大号"@)]
}

/// Completes a font size (see `font_sizes`).
pub fn complete_font_size_enum(input: &str, position: Position) -> (r: Vec<PrimaryCompletion>)
    ensures
        completions_view(r@) == enum_items(
            font_sizes(),
            ItemKind::EnumMember,
            input@,
            span_ending(position, utf8_len(input@) as usize),
            font_sizes().len() as int,
        ),
{
    let items = vec![("small", "小号"), ("medium", "中号"), ("large", "大号")];
    assert(pairs_view(items@) =~= font_sizes());
    complete_enum(items.as_slice(), ItemKind::EnumMember, input, position)
}

/// The easing curves of an animation, with their descriptions.
pub open spec fn eases() -> Seq<(Seq<char>, Seq<char>)> {
    seq![("linear"@, "线性"@), ("easeIn"@, "缓入"@), ("easeOut"@, "缓出"@), ("easeInOut"@, "缓入缓出"@), ("circIn"@, "圆形缓入"@), ("circOut"@, "圆形缓出"@), ("circInOut"@, "圆形缓入缓出"@), ("backIn"@, "起点回弹"@), ("backOut"@, "终点回弹"@), ("backInOut"@, "起止回弹"@), ("bounceIn"@, "起点弹跳"@), ("bounceOut"@, "终点弹跳"@), ("bounceInOut"@, "起止弹跳"@), ("anticipate"@, "预先反向"@)]
}

/// Completes an easing curve (see `eases`).
pub fn complete_ease_enum(input: &str, position: Position) -> (r: Vec<PrimaryCompletion>)
    ensures
        completions_view(r@) == enum_items(
            eases(),
            ItemKind::EnumMember,
            input@,
            span_ending(position, utf8_len(input@) as usize),
            eases().len() as int,
        ),
{
    let items = vec![("linear", "线性"), ("easeIn", "缓入"), ("easeOut", "缓出"), ("easeInOut", "缓入缓出"), ("circIn", "圆形缓入"), ("circOut", "圆形缓出"), ("circInOut", "圆形缓入缓出"), ("backIn", "起点回弹"), ("backOut", "终点回弹"), ("backInOut", "起止回弹"), ("bounceIn", "起点弹跳"), ("bounceOut", "终点弹跳"), ("bounceInOut", "起止弹跳"), ("anticipate", "预先反向")];
    assert(pairs_view(items@) =~= eases());
    complete_enum(items.as_slice(), ItemKind::EnumMember, input, position)
}

} // verus!
