//! Highlighting of the parts of a scene line that the library reads on its
//! own: the comment with its `nolint` list, the content of a variable
//! assignment and of a style change, and the classes of argument values.
//! Spans are byte ranges within the line or content they are taken from.

use vstd::prelude::*;
use core::ops::Range;
use crate::text::{utf8_len, utf8_width, chars_of, byte_offsets, str_eq, is_prefix};
use crate::json::highlight::{TokenType as JsonTokenType, spans_view};

verus! {

/// Highlight class of a span of a scene.
#[derive(Debug, Clone, Copy, PartialEq, Eq, Structural)]
pub enum TokenType {
    Type,
    Parameter,
    Variable,
    Property,
    EnumMember,
    Function,
    Keyword,
    Comment,
    String,
    Number,
    /// Also paths.
    Regex,
    Operator,
}

/// The index of a class in the legend that editors are sent.
pub open spec fn token_id(t: TokenType) -> u32 {
    match t {
        TokenType::Type => 0,
        TokenType::Variable => 1,
        TokenType::Parameter => 2,
        TokenType::Property => 3,
        TokenType::EnumMember => 4,
        TokenType::Function => 5,
        TokenType::Keyword => 6,
        TokenType::Comment => 7,
        TokenType::String => 8,
        TokenType::Number => 9,
        TokenType::Regex => 10,
        TokenType::Operator => 11,
    }
}

impl TokenType {
    /// The index of this class in the legend that editors are sent.
    pub fn to_id(self) -> (r: u32)
        ensures
            r == token_id(self),
    {
        match self {
            TokenType::Type => 0,
            TokenType::Variable => 1,
            TokenType::Parameter => 2,
            TokenType::Property => 3,
            TokenType::EnumMember => 4,
            TokenType::Function => 5,
            TokenType::Keyword => 6,
            TokenType::Comment => 7,
            TokenType::String => 8,
            TokenType::Number => 9,
            TokenType::Regex => 10,
            TokenType::Operator => 11,
        }
    }
}

/// The scene class of a JSON class.
pub open spec fn from_json_spec(value: JsonTokenType) -> TokenType {
    match value {
        JsonTokenType::Keyword => TokenType::Keyword,
        JsonTokenType::String => TokenType::String,
        JsonTokenType::Number => TokenType::Number,
        JsonTokenType::Operator => TokenType::Operator,
    }
}

impl From<JsonTokenType> for TokenType {
    fn from(value: JsonTokenType) -> (r: TokenType) {
        match value {
            JsonTokenType::Keyword => TokenType::Keyword,
            JsonTokenType::String => TokenType::String,
            JsonTokenType::Number => TokenType::Number,
            JsonTokenType::Operator => TokenType::Operator,
        }
    }
}

impl vstd::std_specs::convert::FromSpecImpl<JsonTokenType> for TokenType {
    open spec fn obeys_from_spec() -> bool {
        true
    }

    open spec fn from_spec(value: JsonTokenType) -> TokenType {
        from_json_spec(value)
    }
}


/// The statement that a scene line holds, by its kind: the highlighting
/// reads no more of a statement than which one it is.
#[derive(Debug, Clone, Copy, PartialEq, Eq, Structural)]
pub enum Sentence {
    Say,
    ChangeBackground,
    ChangeFigure,
    Bgm,
    PlayVideo,
    PlayEffect,
    SetAnimation,
    SetComplexAnimation,
    SetTransform,
    SetTempAnimation,
    SetTransition,
    PixiPerform,
    PixiInit,
    Intro,
    MiniAvatar,
    SetTextbox,
    FilmMode,
    CallScene,
    ChangeScene,
    Choose,
    Label,
    JumpLabel,
    UnlockCg,
    UnlockBgm,
    GetUserInput,
    SetVar,
    ShowVars,
    Wait,
    ApplyStyle,
    CallSteam,
    End,
    Comment,
}

impl Sentence {
    /// Whether the line plays background music.
    pub fn is_bgm(&self) -> (r: bool)
        ensures
            r == (*self == Sentence::Bgm),
    {
        match self {
            Sentence::Bgm => true,
            _ => false,
        }
    }

    /// Whether the line is a line of dialogue.
    pub fn is_say(&self) -> (r: bool)
        ensures
            r == (*self == Sentence::Say),
    {
        match self {
            Sentence::Say => true,
            _ => false,
        }
    }
}

impl Default for Sentence {
    /// An empty comment line.
    fn default() -> (r: Self)
        ensures
            r == Sentence::Comment,
    {
        Sentence::Comment
    }
}

/// The class that the content of a line of kind `kind` is highlighted
/// with as a whole; `None` for the kinds whose content is highlighted piece
/// by piece, or not at all.
pub open spec fn content_kind(kind: Sentence) -> Option<TokenType> {
    match kind {
        Sentence::ChangeBackground => Some(TokenType::Regex),
        Sentence::ChangeFigure => Some(TokenType::Regex),
        Sentence::Bgm => Some(TokenType::Regex),
        Sentence::PlayVideo => Some(TokenType::Regex),
        Sentence::PlayEffect => Some(TokenType::Regex),
        Sentence::SetAnimation => Some(TokenType::EnumMember),
        Sentence::SetComplexAnimation => Some(TokenType::EnumMember),
        Sentence::PixiPerform => Some(TokenType::EnumMember),
        Sentence::MiniAvatar => Some(TokenType::Regex),
        Sentence::SetTextbox => Some(TokenType::EnumMember),
        Sentence::FilmMode => Some(TokenType::EnumMember),
        Sentence::CallScene => Some(TokenType::Regex),
        Sentence::ChangeScene => Some(TokenType::Regex),
        Sentence::Label => Some(TokenType::Variable),
        Sentence::JumpLabel => Some(TokenType::Variable),
        Sentence::UnlockCg => Some(TokenType::Regex),
        Sentence::UnlockBgm => Some(TokenType::Regex),
        Sentence::GetUserInput => Some(TokenType::Variable),
        Sentence::Wait => Some(TokenType::Number),
        _ => None,
    }
}

impl TokenType {
    /// The class of the whole content of a line (see `content_kind`).
    pub fn from_content(sentence: Sentence) -> (r: Option<TokenType>)
        ensures
            r == content_kind(sentence),
    {
        match sentence {
            Sentence::ChangeBackground => Some(TokenType::Regex),
            Sentence::ChangeFigure => Some(TokenType::Regex),
            Sentence::Bgm => Some(TokenType::Regex),
            Sentence::PlayVideo => Some(TokenType::Regex),
            Sentence::PlayEffect => Some(TokenType::Regex),
            Sentence::SetAnimation => Some(TokenType::EnumMember),
            Sentence::SetComplexAnimation => Some(TokenType::EnumMember),
            Sentence::PixiPerform => Some(TokenType::EnumMember),
            Sentence::MiniAvatar => Some(TokenType::Regex),
            Sentence::SetTextbox => Some(TokenType::EnumMember),
            Sentence::FilmMode => Some(TokenType::EnumMember),
            Sentence::CallScene => Some(TokenType::Regex),
            Sentence::ChangeScene => Some(TokenType::Regex),
            Sentence::Label => Some(TokenType::Variable),
            Sentence::JumpLabel => Some(TokenType::Variable),
            Sentence::UnlockCg => Some(TokenType::Regex),
            Sentence::UnlockBgm => Some(TokenType::Regex),
            Sentence::GetUserInput => Some(TokenType::Variable),
            Sentence::Wait => Some(TokenType::Number),
            _ => None,
        }
    }
}

/// Whether `name` is one of `names`.
fn is_one_of(name: &str, names: Vec<&str>) -> (r: bool)
    ensures
        r == names@.map_values(|s: &str| s@).contains(name@),
{
    let ghost views = names@.map_values(|s: &str| s@);
    let mut i: usize = 0;
    while i < names.len()
        invariant
            views == names@.map_values(|s: &str| s@),
            i <= names.len(),
            forall|j: int| 0 <= j < i ==> views[j] != name@,
        decreases names.len() - i,
    {
        if str_eq(name, names[i]) {
            assert(views[i as int] == name@);
            return true;
        }
        i += 1;
    }
    false
}

/// The class of the value of the argument `name` on a line of kind
/// `sentence`; `None` when its value is highlighted otherwise or not at all.
pub open spec fn argument_kind(name: Seq<char>, sentence: Sentence) -> Option<TokenType> {
    if seq!["speaker"@].contains(name) {
        Some(TokenType::Type)
    } else if seq!["figureId"@, "id"@, "target"@, "name"@, "unlockname"@, "series"@, "achivementId"@].contains(name) {
        Some(TokenType::Variable)
    } else if seq!["fontSize"@, "exit"@, "ease"@, "animation"@].contains(name) {
        Some(TokenType::EnumMember)
    } else if name == "enter"@ && sentence != Sentence::Bgm {
        Some(TokenType::EnumMember)
    } else if seq!["title"@, "buttonText"@, "ruleText"@, "ruleButtonText"@, "fontColor"@, "backgroundColor"@].contains(name) {
        Some(TokenType::String)
    } else if seq!["duration"@, "enterDuration"@, "exitDuration"@, "delayTime"@, "volume"@, "enter"@, "zIndex"@, "defaultChoice"@].contains(name) {
        Some(TokenType::Number)
    } else if seq!["vocal"@, "backgroundImage"@, "mouthOpen"@, "mouthHalfOpen"@, "mouthClose"@, "eyesOpen"@, "eyesClose"@, "skin"@, "motion"@, "expression"@, "defaultValue"@, "rule"@, "ruleFlag"@, "when"@].contains(name) {
        Some(TokenType::Regex)
    } else if seq!["writeReturnTo"@].contains(name) {
        Some(TokenType::Parameter)
    } else {
        None
    }
}

impl TokenType {
    /// The class of the value of the argument `name` on a line of kind
    /// `sentence` (see `argument_kind`): the `enter` of background music is a
    /// duration, elsewhere an animation.
    pub fn from_argument(name: &str, sentence: Sentence) -> (r: Option<TokenType>)
        ensures
            r == argument_kind(name@, sentence),
    {
        let g0 = vec!["speaker"];
        proof {
            assert(g0@.map_values(|s: &str| s@) =~= seq!["speaker"@]);
        }
        let g1 = vec!["figureId", "id", "target", "name", "unlockname", "series", "achivementId"];
        proof {
            assert(g1@.map_values(|s: &str| s@) =~= seq!["figureId"@, "id"@, "target"@, "name"@, "unlockname"@, "series"@, "achivementId"@]);
        }
        let g2 = vec!["fontSize", "exit", "ease", "animation"];
        proof {
            assert(g2@.map_values(|s: &str| s@) =~= seq!["fontSize"@, "exit"@, "ease"@, "animation"@]);
        }
        let g3 = vec!["title", "buttonText", "ruleText", "ruleButtonText", "fontColor", "backgroundColor"];
        proof {
            assert(g3@.map_values(|s: &str| s@) =~= seq!["title"@, "buttonText"@, "ruleText"@, "ruleButtonText"@, "fontColor"@, "backgroundColor"@]);
        }
        let g4 = vec!["duration", "enterDuration", "exitDuration", "delayTime", "volume", "enter", "zIndex", "defaultChoice"];
        proof {
            assert(g4@.map_values(|s: &str| s@) =~= seq!["duration"@, "enterDuration"@, "exitDuration"@, "delayTime"@, "volume"@, "enter"@, "zIndex"@, "defaultChoice"@]);
        }
        let g5 = vec!["vocal", "backgroundImage", "mouthOpen", "mouthHalfOpen", "mouthClose", "eyesOpen", "eyesClose", "skin", "motion", "expression", "defaultValue", "rule", "ruleFlag", "when"];
        proof {
            assert(g5@.map_values(|s: &str| s@) =~= seq!["vocal"@, "backgroundImage"@, "mouthOpen"@, "mouthHalfOpen"@, "mouthClose"@, "eyesOpen"@, "eyesClose"@, "skin"@, "motion"@, "expression"@, "defaultValue"@, "rule"@, "ruleFlag"@, "when"@]);
        }
        let g6 = vec!["writeReturnTo"];
        proof {
            assert(g6@.map_values(|s: &str| s@) =~= seq!["writeReturnTo"@]);
        }
        if is_one_of(name, g0) {
            Some(TokenType::Type)
        } else if is_one_of(name, g1) {
            Some(TokenType::Variable)
        } else if is_one_of(name, g2) {
            Some(TokenType::EnumMember)
        } else if str_eq(name, "enter") && !sentence.is_bgm() {
            Some(TokenType::EnumMember)
        } else if is_one_of(name, g3) {
            Some(TokenType::String)
        } else if is_one_of(name, g4) {
            Some(TokenType::Number)
        } else if is_one_of(name, g5) {
            Some(TokenType::Regex)
        } else if is_one_of(name, g6) {
            Some(TokenType::Parameter)
        } else {
            None
        }
    }
}

/// Spans as integer triples.
pub open spec fn spans_of(v: Seq<(Range<usize>, TokenType)>) -> Seq<(int, int, TokenType)> {
    v.map_values(|p: (Range<usize>, TokenType)| (p.0.start as int, p.0.end as int, p.1))
}

/// Byte offset of character `k` of `s`.
pub open spec fn byte_at(s: Seq<char>, k: int) -> int {
    utf8_len(s.take(k)) as int
}

/// The first index, from `i` on, where `s` holds `c`; the length of `s`
/// when there is none.
pub open spec fn find_char(s: Seq<char>, c: char, i: int) -> int
    decreases s.len() - i,
{
    if i < 0 || i >= s.len() {
        s.len() as int
    } else if s[i] == c {
        i
    } else {
        find_char(s, c, i + 1)
    }
}

/// The first index from `i` on, below `e`, where `s` holds `->`; `e` when
/// there is none.
pub open spec fn find_arrow(s: Seq<char>, i: int, e: int) -> int
    decreases e - i,
{
    if i < 0 || i + 1 >= e {
        e
    } else if s[i] == '-' && s[i + 1] == '>' {
        i
    } else {
        find_arrow(s, i + 1, e)
    }
}

/// Highlighting of the content of a variable assignment: the variable
/// before the first `=`, the `=`, and the expression after it; nothing
/// without a `=`.
pub open spec fn set_variable_spans(s: Seq<char>) -> Seq<(int, int, TokenType)> {
    let k = find_char(s, '=', 0);
    if k < s.len() {
        seq![
            (0, byte_at(s, k), TokenType::Variable),
            (byte_at(s, k), byte_at(s, k) + 1, TokenType::Operator),
            (byte_at(s, k) + 1, utf8_len(s) as int, TokenType::Regex),
        ]
    } else {
        Seq::empty()
    }
}

pub proof fn lemma_find_char(s: Seq<char>, c: char, i: int)
    requires
        0 <= i <= s.len(),
    ensures
        i <= find_char(s, c, i) <= s.len(),
        find_char(s, c, i) < s.len() ==> s[find_char(s, c, i)] == c,
        forall|j: int| i <= j < find_char(s, c, i) ==> s[j] != c,
    decreases s.len() - i,
{
    if i < s.len() && s[i] != c {
        lemma_find_char(s, c, i + 1);
    }
}

/// Finds `c` in `chars` from `i` on (see `find_char`).
fn find_char_exec(chars: &Vec<char>, c: char, i: usize) -> (r: usize)
    requires
        i <= chars@.len(),
    ensures
        r == find_char(chars@, c, i as int),
{
    proof {
        lemma_find_char(chars@, c, i as int);
    }
    let mut k = i;
    while k < chars.len()
        invariant
            i <= k <= chars@.len(),
            find_char(chars@, c, i as int) == find_char(chars@, c, k as int),
        decreases chars@.len() - k,
    {
        if chars[k] == c {
            return k;
        }
        k += 1;
    }
    k
}

/// Highlights the content of a variable assignment (see
/// `set_variable_spans`).
pub fn highlight_set_variable_content(content: &str) -> (r: Vec<(Range<usize>, TokenType)>)
    ensures
        spans_of(r@) == set_variable_spans(content@),
{
    let chars = chars_of(content);
    let offsets = byte_offsets(content, &chars);
    let k = find_char_exec(&chars, '=', 0);
    let mut r: Vec<(Range<usize>, TokenType)> = Vec::new();
    if k < chars.len() {
        let n = chars.len();
        let at = offsets[k];
        let total = offsets[n];
        proof {
            assert(content@.take(n as int) =~= content@);
            crate::text::lemma_len_take_next(content@, k as int);
            crate::text::lemma_len_take_mono(content@, k + 1, n as int);
        }
        r.push((Range { start: 0, end: at }, TokenType::Variable));
        r.push((Range { start: at, end: at + 1 }, TokenType::Operator));
        r.push((Range { start: at + 1, end: total }, TokenType::Regex));
    }
    assert(spans_of(r@) =~= set_variable_spans(content@));
    r
}

/// Highlighting of the style changes in `s` from character `i` on: the
/// changes are separated by `,`, and in each one that holds `->` the old
/// style before it, the `->` and the new style after it are highlighted.
pub open spec fn style_spans(s: Seq<char>, i: int) -> Seq<(int, int, TokenType)>
    decreases s.len() - i,
{
    if i < 0 || i > s.len() {
        Seq::empty()
    } else {
        proof {
            lemma_find_char(s, ',', i);
        }
        let e = find_char(s, ',', i);
        let a = find_arrow(s, i, e);
        let here = if a < e {
            seq![
                (byte_at(s, i), byte_at(s, a), TokenType::Regex),
                (byte_at(s, a), byte_at(s, a) + 2, TokenType::Operator),
                (byte_at(s, a + 2), byte_at(s, e), TokenType::Regex),
            ]
        } else {
            Seq::empty()
        };
        here + if e < s.len() {
            style_spans(s, e + 1)
        } else {
            Seq::empty()
        }
    }
}

proof fn lemma_find_arrow(s: Seq<char>, i: int, e: int)
    requires
        0 <= i <= e <= s.len(),
    ensures
        i <= find_arrow(s, i, e) <= e,
        find_arrow(s, i, e) < e ==> find_arrow(s, i, e) + 1 < e && s[find_arrow(s, i, e)] == '-'
            && s[find_arrow(s, i, e) + 1] == '>',
    decreases e - i,
{
    if i + 1 < e && !(s[i] == '-' && s[i + 1] == '>') {
        lemma_find_arrow(s, i + 1, e);
    }
}

/// Finds `->` in `chars` from `i` on, below `e` (see `find_arrow`).
fn find_arrow_exec(chars: &Vec<char>, i: usize, e: usize) -> (r: usize)
    requires
        i <= e <= chars@.len(),
    ensures
        r == find_arrow(chars@, i as int, e as int),
{
    let mut a = i;
    while e - a > 1
        invariant
            i <= a <= e <= chars@.len(),
            find_arrow(chars@, i as int, e as int) == find_arrow(chars@, a as int, e as int),
        decreases e - a,
    {
        if chars[a] == '-' && chars[a + 1] == '>' {
            return a;
        }
        a += 1;
    }
    e
}

/// Highlights the content of a style change (see `style_spans`).
pub fn highlight_apply_style_content(content: &str) -> (r: Vec<(Range<usize>, TokenType)>)
    ensures
        spans_of(r@) == style_spans(content@, 0),
{
    let chars = chars_of(content);
    let offsets = byte_offsets(content, &chars);
    let n = chars.len();
    let ghost s = content@;
    let mut r: Vec<(Range<usize>, TokenType)> = Vec::new();
    let mut i: usize = 0;
    let mut done = false;
    proof {
        assert(s.take(n as int) =~= s);
    }
    while !done
        invariant
            chars@ == s,
            n == s.len(),
            offsets@.len() == n + 1,
            forall|j: int| 0 <= j <= n ==> offsets@[j] == utf8_len(#[trigger] s.take(j)),
            i <= n,
            s.take(n as int) == s,
            !done ==> spans_of(r@) + style_spans(s, i as int) == style_spans(s, 0),
            done ==> spans_of(r@) == style_spans(s, 0),
        decreases n - i + (if done { 0int } else { 1int }),
    {
        let e = find_char_exec(&chars, ',', i);
        proof {
            lemma_find_char(s, ',', i as int);
        }
        let a = find_arrow_exec(&chars, i, e);
        proof {
            lemma_find_arrow(s, i as int, e as int);
        }
        assert(a == find_arrow(s, i as int, e as int));
        let ghost before = spans_of(r@);
        if a < e {
            proof {
                crate::text::lemma_len_take_next(s, a as int);
                crate::text::lemma_len_take_next(s, a + 1);
                assert(offsets@[a + 2] == offsets@[a as int] + 2);
            }
            r.push((Range { start: offsets[i], end: offsets[a] }, TokenType::Regex));
            r.push((Range { start: offsets[a], end: offsets[a] + 2 }, TokenType::Operator));
            r.push((Range { start: offsets[a + 2], end: offsets[e] }, TokenType::Regex));
        }
        let ghost here = if a < e {
            seq![
                (byte_at(s, i as int), byte_at(s, a as int), TokenType::Regex),
                (byte_at(s, a as int), byte_at(s, a as int) + 2, TokenType::Operator),
                (byte_at(s, a + 2), byte_at(s, e as int), TokenType::Regex),
            ]
        } else {
            Seq::<(int, int, TokenType)>::empty()
        };
        assert(spans_of(r@) =~= before + here);
        if e < n {
            assert(style_spans(s, i as int) == here + style_spans(s, e + 1));
            assert(spans_of(r@) + style_spans(s, e + 1) =~= before + style_spans(s, i as int));
            i = e + 1;
        } else {
            assert(style_spans(s, i as int) =~= here);
            done = true;
        }
    }
    r
}


/// Highlighting of the diagnostic codes of a `nolint` list from character
/// `i` on, up to the comment's end `b` (byte `end`), the last code having
/// started at byte `last_end`: each code, each `|` between codes, and a `;`
/// with the rest of the comment after it.
pub open spec fn nolint_spans(s: Seq<char>, i: int, b: int, last_end: int, end: int) -> Seq<
    (int, int, TokenType),
>
    decreases b - i,
{
    if i < 0 || i >= b {
        if last_end != end {
            seq![(last_end, end, TokenType::EnumMember)]
        } else {
            Seq::empty()
        }
    } else if s[i] == '|' {
        seq![
            (last_end, byte_at(s, i), TokenType::EnumMember),
            (byte_at(s, i), byte_at(s, i) + 1, TokenType::Operator),
        ] + nolint_spans(s, i + 1, b, byte_at(s, i) + 1, end)
    } else if s[i] == ';' {
        seq![(last_end, byte_at(s, i), TokenType::EnumMember), (byte_at(s, i), end, TokenType::Comment)]
    } else {
        nolint_spans(s, i + 1, b, last_end, end)
    }
}

/// Highlighting of the comment that spans characters `a` to `b` of the
/// line `s`: the `;` that opens it, when it stands right before; then the
/// whole comment, or, when it is a `nolint:` list, the keyword, its `:` and
/// the list (see `nolint_spans`).
pub open spec fn comment_spans(s: Seq<char>, a: int, b: int) -> Seq<(int, int, TokenType)> {
    let start = byte_at(s, a);
    let end = byte_at(s, b);
    let semi = if a >= 1 && s[a - 1] == ';' {
        seq![(start - 1, start, TokenType::Comment)]
    } else {
        Seq::empty()
    };
    semi + if !is_prefix("nolint:"@, s.subrange(a, b)) {
        seq![(start, end, TokenType::Comment)]
    } else {
        seq![(start, start + 6, TokenType::Keyword), (start + 6, start + 7, TokenType::Operator)]
            + nolint_spans(s, a + 7, b, start + 7, end)
    }
}

/// The byte span `start` to `end` starts and ends between characters of
/// `s`.
pub open spec fn char_span(s: Seq<char>, start: int, end: int) -> bool {
    exists|a: int, b: int| 0 <= a <= b <= s.len() && byte_at(s, a) == start && byte_at(s, b) == end
}

/// Byte offsets of characters grow with the characters.
proof fn lemma_byte_at_strict(s: Seq<char>, i: int, j: int)
    requires
        0 <= i < j <= s.len(),
    ensures
        byte_at(s, i) < byte_at(s, j),
{
    crate::text::lemma_len_take_mono(s, i, j);
}

/// Finds the character index at byte `pos` of `s`, given the byte offsets
/// of its characters.
fn char_index(offsets: &Vec<usize>, pos: usize, Ghost(s): Ghost<Seq<char>>) -> (k: usize)
    requires
        offsets@.len() == s.len() + 1,
        forall|j: int| 0 <= j <= s.len() ==> offsets@[j] == #[trigger] byte_at(s, j),
        exists|k: int| 0 <= k <= s.len() && byte_at(s, k) == pos,
    ensures
        k <= s.len(),
        byte_at(s, k as int) == pos,
{
    let mut k: usize = 0;
    while k < offsets.len()
        invariant
            offsets@.len() == s.len() + 1,
            forall|j: int| 0 <= j <= s.len() ==> offsets@[j] == #[trigger] byte_at(s, j),
            exists|k: int| k <= s.len() && 0 <= k && byte_at(s, k) == pos,
            forall|j: int| 0 <= j < k ==> byte_at(s, j) != pos,
            k <= offsets@.len(),
        decreases offsets@.len() - k,
    {
        if offsets[k] == pos {
            return k;
        }
        k += 1;
    }
    proof {
        let w = choose|w: int| 0 <= w <= s.len() && byte_at(s, w) == pos;
        assert(byte_at(s, w) != pos);
    }
    0
}

/// Highlights the comment of a scene line `content` that spans bytes
/// `comment_start` to `comment_end` (see `comment_spans`).
pub fn highlight_comment(content: &str, comment_start: usize, comment_end: usize) -> (r: Vec<
    (Range<usize>, TokenType),
>)
    requires
        char_span(content@, comment_start as int, comment_end as int),
    ensures
        forall|a: int, b: int|
            0 <= a <= b <= content@.len() && byte_at(content@, a) == comment_start && byte_at(
                content@,
                b,
            ) == comment_end ==> spans_of(r@) == comment_spans(content@, a, b),
{
    let chars = chars_of(content);
    let offsets = byte_offsets(content, &chars);
    let ghost s = content@;
    let n = chars.len();
    let a = char_index(&offsets, comment_start, Ghost(s));
    let b = char_index(&offsets, comment_end, Ghost(s));
    proof {
        assert(s.take(n as int) =~= s);
        let (a0, b0) = choose|a0: int, b0: int|
            0 <= a0 <= b0 <= s.len() && byte_at(s, a0) == comment_start && byte_at(s, b0) == comment_end;
        lemma_byte_at_mono(s, a0, b0);
        if a > b {
            lemma_byte_at_strict(s, b as int, a as int);
        }
        lemma_char_span_unique(s, a as int, b as int, comment_start as int, comment_end as int);
    }
    let start = comment_start;
    let end = comment_end;
    let mut r: Vec<(Range<usize>, TokenType)> = Vec::new();
    if a >= 1 && chars[a - 1] == ';' {
        proof {
            crate::text::lemma_len_take_next(s, a - 1);
        }
        r.push((Range { start: start - 1, end: start }, TokenType::Comment));
    }
    let ghost semi = spans_of(r@);
    proof {
        reveal_strlit("nolint:");
    }
    let comment = content.substring_char(a, b);
    if !crate::text::starts_with(comment, "nolint:") {
        r.push((Range { start, end }, TokenType::Comment));
        assert(spans_of(r@) =~= comment_spans(s, a as int, b as int));
        return r;
    }
    proof {
        lemma_nolint_bytes(s, a as int, b as int);
    }
    r.push((Range { start, end: start + 6 }, TokenType::Keyword));
    r.push((Range { start: start + 6, end: start + 7 }, TokenType::Operator));
    let ghost head = spans_of(r@);
    let list = nolint_list(&chars, &offsets, a + 7, b, start + 7, end, Ghost(s));
    let mut list = list;
    r.append(&mut list);
    assert(spans_of(r@) =~= comment_spans(s, a as int, b as int));
    r
}

/// Highlights the `nolint` list from character `i0` on (see
/// `nolint_spans`).
fn nolint_list(
    chars: &Vec<char>,
    offsets: &Vec<usize>,
    i0: usize,
    b: usize,
    last_end0: usize,
    end: usize,
    Ghost(s): Ghost<Seq<char>>,
) -> (r: Vec<(Range<usize>, TokenType)>)
    requires
        chars@ == s,
        i0 <= b <= s.len(),
        offsets@.len() == s.len() + 1,
        forall|j: int| 0 <= j <= s.len() ==> offsets@[j] == #[trigger] byte_at(s, j),
        byte_at(s, b as int) == end,
        last_end0 <= byte_at(s, i0 as int),
    ensures
        spans_of(r@) == nolint_spans(s, i0 as int, b as int, last_end0 as int, end as int),
{
    let n = chars.len();
    let mut r: Vec<(Range<usize>, TokenType)> = Vec::new();
    let mut last_end = last_end0;
    let mut i = i0;
    let mut stopped = false;
    proof {
        lemma_byte_at_mono(s, i0 as int, b as int);
    }
    while i < b && !stopped
        invariant
            chars@ == s,
            n == s.len(),
            b <= n,
            i0 <= i <= b,
            offsets@.len() == n + 1,
            forall|j: int| 0 <= j <= n ==> offsets@[j] == #[trigger] byte_at(s, j),
            byte_at(s, b as int) == end,
            byte_at(s, i as int) <= end,
            last_end <= end,
            !stopped ==> last_end <= byte_at(s, i as int),
            !stopped ==> spans_of(r@) + nolint_spans(s, i as int, b as int, last_end as int, end as int)
                == nolint_spans(s, i0 as int, b as int, last_end0 as int, end as int),
            stopped ==> spans_of(r@) == nolint_spans(s, i0 as int, b as int, last_end0 as int, end as int),
        decreases b - i + (if stopped { 0int } else { 1int }),
    {
        let ch = chars[i];
        let at = offsets[i];
        proof {
            crate::text::lemma_len_take_next(s, i as int);
            lemma_byte_at_mono(s, i + 1, b as int);
        }
        let ghost before = spans_of(r@);
        if ch == '|' {
            r.push((Range { start: last_end, end: at }, TokenType::EnumMember));
            r.push((Range { start: at, end: at + 1 }, TokenType::Operator));
            assert(spans_of(r@) =~= before + seq![
                (last_end as int, at as int, TokenType::EnumMember),
                (at as int, at + 1, TokenType::Operator),
            ]);
            last_end = at + 1;
            i += 1;
        } else if ch == ';' {
            r.push((Range { start: last_end, end: at }, TokenType::EnumMember));
            r.push((Range { start: at, end }, TokenType::Comment));
            assert(spans_of(r@) =~= before + nolint_spans(s, i as int, b as int, last_end as int, end as int));
            last_end = end;
            stopped = true;
        } else {
            i += 1;
        }
    }
    if !stopped {
        let ghost before = spans_of(r@);
        if last_end != end {
            r.push((Range { start: last_end, end }, TokenType::EnumMember));
        }
        assert(spans_of(r@) =~= before + nolint_spans(s, i as int, b as int, last_end as int, end as int));
    }
    r
}

/// The character span of a byte span is the only one.
proof fn lemma_char_span_unique(s: Seq<char>, a: int, b: int, start: int, end: int)
    requires
        0 <= a <= b <= s.len(),
        byte_at(s, a) == start,
        byte_at(s, b) == end,
    ensures
        forall|a2: int, b2: int|
            0 <= a2 <= b2 <= s.len() && byte_at(s, a2) == start && byte_at(s, b2) == end ==> a2 == a
                && b2 == b,
{
    assert forall|a2: int, b2: int|
        0 <= a2 <= b2 <= s.len() && byte_at(s, a2) == start && byte_at(s, b2) == end implies a2 == a
            && b2 == b by {
        if a2 < a {
            lemma_byte_at_strict(s, a2, a);
        }
        if a < a2 {
            lemma_byte_at_strict(s, a, a2);
        }
        if b2 < b {
            lemma_byte_at_strict(s, b2, b);
        }
        if b < b2 {
            lemma_byte_at_strict(s, b, b2);
        }
    }
}

/// A comment that opens with `nolint:` has those seven one-byte
/// characters first.
proof fn lemma_nolint_bytes(s: Seq<char>, a: int, b: int)
    requires
        0 <= a <= b <= s.len(),
        is_prefix("nolint:"@, s.subrange(a, b)),
    ensures
        a + 7 <= b,
        byte_at(s, a + 7) == byte_at(s, a) + 7,
        byte_at(s, a + 7) <= byte_at(s, b),
{
    reveal_strlit("nolint:");
    assert(s.subrange(a, b).take(7) =~= "nolint:"@);
    assert("nolint:"@ =~= seq!['n', 'o', 'l', 'i', 'n', 't', ':']);
    crate::text::lemma_len_take_mono(s, a, a + 7);
    assert(s[a + 0] == s.subrange(a, b).take(7)[0]);
    crate::text::lemma_len_take_next(s, a + 0);
    assert(s[a + 1] == s.subrange(a, b).take(7)[1]);
    crate::text::lemma_len_take_next(s, a + 1);
    assert(s[a + 2] == s.subrange(a, b).take(7)[2]);
    crate::text::lemma_len_take_next(s, a + 2);
    assert(s[a + 3] == s.subrange(a, b).take(7)[3]);
    crate::text::lemma_len_take_next(s, a + 3);
    assert(s[a + 4] == s.subrange(a, b).take(7)[4]);
    crate::text::lemma_len_take_next(s, a + 4);
    assert(s[a + 5] == s.subrange(a, b).take(7)[5]);
    crate::text::lemma_len_take_next(s, a + 5);
    assert(s[a + 6] == s.subrange(a, b).take(7)[6]);
    crate::text::lemma_len_take_next(s, a + 6);
    assert(byte_at(s, a + 7) == byte_at(s, a) + 7);
    lemma_byte_at_mono(s, a + 7, b);
}

/// Byte offsets of characters do not shrink as the characters go on.
proof fn lemma_byte_at_mono(s: Seq<char>, i: int, j: int)
    requires
        0 <= i <= j <= s.len(),
    ensures
        byte_at(s, i) <= byte_at(s, j),
{
    crate::text::lemma_len_take_mono(s, i, j);
}

} // verus!
