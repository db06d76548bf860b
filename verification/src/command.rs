//! Completion of the command that opens a line of a scene: the speakers of
//! the project, the commands, and the templates that fill a command in.

use vstd::prelude::*;
use crate::position::{Position, Range, make_span, span_ending};
use crate::text::{is_prefix, starts_with, byte_len, utf8_len, lemma_len_take_mono};
use crate::std_ext::string_push;

verus! {

/// What a completion offers, as editors classify it.
#[derive(Clone, Copy, Debug, PartialEq, Eq, Structural)]
pub enum ItemKind {
    /// A command.
    Function,
    /// A template that fills a command in.
    Snippet,
    /// A speaker.
    Variable,
    /// A keyword of the language.
    Keyword,
    /// One of a fixed set of values.
    EnumMember,
}

/// A completion of the text before the cursor.
#[derive(Clone, Debug)]
pub struct PrimaryCompletion {
    /// Label shown in the list.
    pub name: String,
    pub kind: ItemKind,
    /// Short description shown beside the label.
    pub description: Option<String>,
    /// Longer documentation.
    pub document: Option<String>,
    /// Key that the list is sorted by.
    pub sort_key: Option<String>,
    /// The text that the completion replaces.
    pub span: Range,
    /// Text inserted in place of the span; the label when there is none.
    pub insert_text: Option<String>,
}

/// A completion as plain values.
pub struct CompletionView {
    pub name: Seq<char>,
    pub kind: ItemKind,
    pub description: Option<Seq<char>>,
    pub document: Option<Seq<char>>,
    pub sort_key: Option<Seq<char>>,
    pub span: Range,
    pub insert_text: Option<Seq<char>>,
}

/// The characters of an optional string.
pub open spec fn opt_view(o: Option<String>) -> Option<Seq<char>> {
    match o {
        Some(s) => Some(s@),
        None => None,
    }
}

impl View for PrimaryCompletion {
    type V = CompletionView;

    open spec fn view(&self) -> CompletionView {
        CompletionView {
            name: self.name@,
            kind: self.kind,
            description: opt_view(self.description),
            document: opt_view(self.document),
            sort_key: opt_view(self.sort_key),
            span: self.span,
            insert_text: opt_view(self.insert_text),
        }
    }
}

/// The views of a list of completions.
pub open spec fn completions_view(v: Seq<PrimaryCompletion>) -> Seq<CompletionView> {
    v.map_values(|c: PrimaryCompletion| c@)
}

/// A template that fills a command in: `$1`, `$2`, ... mark the places the
/// cursor visits in turn, `$0` where it ends.
#[derive(Clone, Copy, Debug)]
pub struct CommandTemplate {
    pub name: &'static str,
    /// Said after the command's description; empty when nothing is added.
    pub description: &'static str,
    pub template: &'static str,
}

/// A command with its description and templates.
#[derive(Clone, Debug)]
pub struct CommandInfo {
    pub name: &'static str,
    pub description: &'static str,
    /// Whether the command takes content after a colon.
    pub with_content: bool,
    pub templates: Vec<CommandTemplate>,
}

/// A template as plain values.
pub struct TemplateView {
    pub name: Seq<char>,
    pub description: Seq<char>,
    pub template: Seq<char>,
}

/// A command as plain values.
pub struct CommandView {
    pub name: Seq<char>,
    pub description: Seq<char>,
    pub with_content: bool,
    pub templates: Seq<TemplateView>,
}

impl View for CommandTemplate {
    type V = TemplateView;

    open spec fn view(&self) -> TemplateView {
        TemplateView { name: self.name@, description: self.description@, template: self.template@ }
    }
}

impl View for CommandInfo {
    type V = CommandView;

    open spec fn view(&self) -> CommandView {
        CommandView {
            name: self.name@,
            description: self.description@,
            with_content: self.with_content,
            templates: self.templates@.map_values(|t: CommandTemplate| t@),
        }
    }
}

/// The completion of a command's name: the name followed by a colon when
/// content follows, else by a semicolon.
pub open spec fn command_item(cmd: CommandView, span: Range) -> CompletionView {
    CompletionView {
        name: cmd.name,
        kind: ItemKind::Function,
        description: Some(cmd.description),
        document: None,
        sort_key: Some(seq!['a'] + cmd.name),
        span,
        insert_text: Some(cmd.name.push(if cmd.with_content { ':' } else { ';' })),
    }
}

/// The completion of one of a command's templates.
pub open spec fn template_item(cmd: CommandView, t: TemplateView, span: Range) -> CompletionView {
    CompletionView {
        name: t.name,
        kind: ItemKind::Snippet,
        description: Some(
            if t.description.len() == 0 {
                cmd.description
            } else {
                cmd.description + seq![' ', '('] + t.description + seq![')']
            },
        ),
        document: None,
        sort_key: Some(seq!['a'] + t.name),
        span,
        insert_text: Some(t.template),
    }
}

/// The completions of the first `n` templates of `cmd` whose names begin
/// with `input`.
pub open spec fn template_items(cmd: CommandView, input: Seq<char>, span: Range, n: int) -> Seq<
    CompletionView,
>
    decreases n,
{
    if n <= 0 {
        Seq::empty()
    } else {
        template_items(cmd, input, span, n - 1) + if is_prefix(input, cmd.templates[n - 1].name) {
            seq![template_item(cmd, cmd.templates[n - 1], span)]
        } else {
            Seq::empty()
        }
    }
}

/// What a command offers for `input`: its own name when that begins with
/// `input`, then each of its templates whose name does.
pub open spec fn command_completions(cmd: CommandView, input: Seq<char>, span: Range) -> Seq<
    CompletionView,
> {
    (if is_prefix(input, cmd.name) {
        seq![command_item(cmd, span)]
    } else {
        Seq::empty()
    }) + template_items(cmd, input, span, cmd.templates.len() as int)
}

/// What the first `n` commands offer for `input`, one after another.
pub open spec fn commands_completions(
    cmds: Seq<CommandView>,
    input: Seq<char>,
    span: Range,
    n: int,
) -> Seq<CompletionView>
    decreases n,
{
    if n <= 0 {
        Seq::empty()
    } else {
        commands_completions(cmds, input, span, n - 1) + command_completions(cmds[n - 1], input, span)
    }
}

impl CommandInfo {
    /// Appends to `completions` what this command offers for `input`, the
    /// text typed before `position` (see `command_completions`).
    pub fn complete(&self, input: &str, position: Position, completions: &mut Vec<PrimaryCompletion>)
        ensures
            completions_view(final(completions)@) == completions_view(old(completions)@)
                + command_completions(self@, input@, span_ending(position, utf8_len(input@) as usize)),
    {
        let ghost cmd = self@;
        let ghost start = completions_view(completions@);
        let span = make_span(position, byte_len(input));
        proof {
            reveal_strlit("a");
            reveal_strlit(" (");
            reveal_strlit(")");
            assert("a"@ =~= seq!['a']);
            assert(" ("@ =~= seq![' ', '(']);
            assert(")"@ =~= seq![')']);
        }
        if starts_with(self.name, input) {
            let mut sort_key = String::from_str("a");
            sort_key.append(self.name);
            let mut insert_text = String::from_str(self.name);
            string_push(&mut insert_text, if self.with_content { ':' } else { ';' });
            completions.push(PrimaryCompletion {
                name: String::from_str(self.name),
                kind: ItemKind::Function,
                description: Some(String::from_str(self.description)),
                document: None,
                sort_key: Some(sort_key),
                span,
                insert_text: Some(insert_text),
            });
        }
        assert(completions_view(completions@) =~= start + (if is_prefix(input@, cmd.name) {
            seq![command_item(cmd, span)]
        } else {
            Seq::<CompletionView>::empty()
        }));
        let ghost head = completions_view(completions@);
        let mut i: usize = 0;
        while i < self.templates.len()
            invariant
                cmd == self@,
                i <= self.templates.len(),
                span == span_ending(position, utf8_len(input@) as usize),
                completions_view(completions@) == head + template_items(cmd, input@, span, i as int),
                " ("@ == seq![' ', '('],
                ")"@ == seq![')'],
                "a"@ == seq!['a'],
            decreases self.templates.len() - i,
        {
            let t = self.templates[i];
            assert(cmd.templates[i as int] == t@);
            let ghost before = completions_view(completions@);
            if starts_with(t.name, input) {
                proof {
                    let d = t.description@;
                    lemma_len_take_mono(d, 0, d.len() as int);
                    assert(d.take(0) =~= Seq::<char>::empty());
                    assert(d.take(d.len() as int) =~= d);
                }
                let description = if byte_len(t.description) == 0 {
                    String::from_str(self.description)
                } else {
                    let mut d = String::from_str(self.description);
                    d.append(" (");
                    d.append(t.description);
                    d.append(")");
                    d
                };
                let mut sort_key = String::from_str("a");
                sort_key.append(t.name);
                completions.push(PrimaryCompletion {
                    name: String::from_str(t.name),
                    kind: ItemKind::Snippet,
                    description: Some(description),
                    document: None,
                    sort_key: Some(sort_key),
                    span,
                    insert_text: Some(String::from_str(t.template)),
                });
                assert(completions_view(completions@) =~= before + seq![
                    template_item(cmd, t@, span),
                ]);
            } else {
                assert(completions_view(completions@) =~= before);
            }
            assert(template_items(cmd, input@, span, i + 1) =~= template_items(cmd, input@, span, i as int)
                + if is_prefix(input@, cmd.templates[i as int].name) {
                seq![template_item(cmd, cmd.templates[i as int], span)]
            } else {
                Seq::<CompletionView>::empty()
            });
            i += 1;
        }
        assert(completions_view(completions@) =~= start + command_completions(cmd, input@, span));
    }
}

/// The lowercase hexadecimal digit for `d`, below sixteen.
pub open spec fn hex_digit(d: int) -> char {
    if d < 10 {
        (d + 48) as char
    } else {
        (d + 87) as char
    }
}

/// The last `n` hexadecimal digits of `x`, most significant first, with
/// leading zeros.
pub open spec fn hex_digits(x: int, n: nat) -> Seq<char>
    decreases n,
{
    if n == 0 {
        Seq::empty()
    } else {
        hex_digits(x / 16, (n - 1) as nat).push(hex_digit(x % 16))
    }
}

/// Appends the sixteen hexadecimal digits of `x` to `s`.
fn push_hex16(s: &mut String, x: usize)
    ensures
        final(s)@ == old(s)@ + hex_digits(x as int, 16),
{
    let mut low_first: Vec<char> = Vec::new();
    let mut v = x;
    let mut j: usize = 0;
    while j < 16
        invariant
            j <= 16,
            low_first@.len() == j,
            hex_digits(x as int, 16) == hex_digits(v as int, (16 - j) as nat) + low_first@.reverse(),
        decreases 16 - j,
    {
        let d = v % 16;
        let c: char = if d < 10 {
            ((d as u8) + 48) as char
        } else {
            ((d as u8) + 87) as char
        };
        assert(c == hex_digit(v as int % 16));
        let ghost old_low = low_first@;
        low_first.push(c);
        assert(low_first@.reverse() =~= seq![c] + old_low.reverse());
        assert(hex_digits(v as int, (16 - j) as nat) == hex_digits(v as int / 16, (16 - j - 1) as nat).push(c));
        assert(hex_digits(v as int / 16, (16 - j - 1) as nat).push(c) + old_low.reverse()
            =~= hex_digits(v as int / 16, (16 - j - 1) as nat) + (seq![c] + old_low.reverse()));
        v = v / 16;
        j += 1;
    }
    assert(hex_digits(v as int, 0) =~= Seq::<char>::empty());
    let ghost start = s@;
    let mut k: usize = 16;
    while k > 0
        invariant
            k <= 16,
            low_first@.len() == 16,
            hex_digits(x as int, 16) =~= low_first@.reverse(),
            s@ =~= start + low_first@.reverse().take(16 - k),
        decreases k,
    {
        k -= 1;
        string_push(s, low_first[k]);
        assert(low_first@.reverse()[15 - k as int] == low_first@[k as int]);
        assert(low_first@.reverse().take(16 - k) =~= low_first@.reverse().take(15 - k).push(low_first@[k as int]));
    }
}

/// The speakers with their counts, as plain values.
pub open spec fn speakers_view(speakers: Seq<(&String, usize)>) -> Seq<(Seq<char>, usize)> {
    speakers.map_values(|p: (&String, usize)| (p.0@, p.1))
}

/// The completion of a speaker's name, followed by the colon that opens
/// what the speaker says. Speakers named more often sort first.
pub open spec fn speaker_item(name: Seq<char>, count: usize, span: Range) -> CompletionView {
    CompletionView {
        name,
        kind: ItemKind::Variable,
        description: Some("人物"@),
        document: None,
        sort_key: Some(seq!['b'] + hex_digits(usize::MAX - count, 16) + name),
        span,
        insert_text: Some(name.push(':')),
    }
}

/// The completions of the first `n` speakers whose names begin with `input`.
pub open spec fn speaker_items(
    speakers: Seq<(Seq<char>, usize)>,
    input: Seq<char>,
    span: Range,
    n: int,
) -> Seq<CompletionView>
    decreases n,
{
    if n <= 0 {
        Seq::empty()
    } else {
        speaker_items(speakers, input, span, n - 1) + if is_prefix(input, speakers[n - 1].0) {
            seq![speaker_item(speakers[n - 1].0, speakers[n - 1].1, span)]
        } else {
            Seq::empty()
        }
    }
}

/// The completions of the speakers, given with how often each is named,
/// whose names begin with `input`, the text typed before `position`.
fn complete_speaker(speakers: &[(&String, usize)], input: &str, position: Position) -> (r: Vec<
    PrimaryCompletion,
>)
    ensures
        completions_view(r@) == speaker_items(
            speakers_view(speakers@),
            input@,
            span_ending(position, utf8_len(input@) as usize),
            speakers@.len() as int,
        ),
{
    let ghost sv = speakers_view(speakers@);
    let span = make_span(position, byte_len(input));
    proof {
        reveal_strlit("b");
        assert("b"@ =~= seq!['b']);
    }
    let mut out: Vec<PrimaryCompletion> = Vec::new();
    let mut i: usize = 0;
    while i < speakers.len()
        invariant
            sv == speakers_view(speakers@),
            i <= speakers@.len(),
            span == span_ending(position, utf8_len(input@) as usize),
            completions_view(out@) == speaker_items(sv, input@, span, i as int),
            "b"@ == seq!['b'],
        decreases speakers@.len() - i,
    {
        let (name, count) = speakers[i];
        assert(sv[i as int] == (name@, count));
        let ghost before = completions_view(out@);
        if starts_with(name.as_str(), input) {
            let mut sort_key = String::from_str("b");
            push_hex16(&mut sort_key, usize::MAX - count);
            sort_key.append(name.as_str());
            let mut insert_text = name.clone();
            string_push(&mut insert_text, ':');
            out.push(PrimaryCompletion {
                name: name.clone(),
                kind: ItemKind::Variable,
                description: Some(String::from_str("人物")),
                document: None,
                sort_key: Some(sort_key),
                span,
                insert_text: Some(insert_text),
            });
            assert(completions_view(out@) =~= before + seq![speaker_item(name@, count, span)]);
        } else {
            assert(completions_view(out@) =~= before);
        }
        i += 1;
    }
    out
}

/// The commands of a scene, with their descriptions and templates.
pub open spec fn command_table() -> Seq<CommandView> {
    seq![
        CommandView {
            name: "say"@,
            description: "普通对话"@,
            with_content: true,
            templates: seq![TemplateView { name: "say"@, description: ""@, template: "$1:$2;$0"@ }, TemplateView { name: "say.figure"@, description: "指定立绘"@, template: "$1:$2 -figureId=$3;$0"@ }],
        },
        CommandView {
            name: "changeBg"@,
            description: "切换背景"@,
            with_content: true,
            templates: seq![TemplateView { name: "changeBg.enter"@, description: ""@, template: "changeBg:$1 -transform=$2 -next;$0"@ }, TemplateView { name: "changeBg.exit"@, description: "清除"@, template: "changeBg:$1 -next;$0"@ }, TemplateView { name: "changeBg.unlock"@, description: "鉴赏"@, template: "changeBg:$1 -transform=$2 -unlockname=$3 -series=$4 -next;$0"@ }],
        },
        CommandView {
            name: "changeFigure"@,
            description: "切换立绘"@,
            with_content: true,
            templates: seq![TemplateView { name: "changeFigure.motion"@, description: "修改动作"@, template: "changeFigure:$1 -id=$2 -motion=$3 -next;$0"@ }, TemplateView { name: "changeFigure.expression"@, description: "修改动作和表情"@, template: "changeFigure:$1 -id=$2 -motion=$3 -expression=$4 -next;$0"@ }, TemplateView { name: "changeFigure.enter"@, description: "入场"@, template: "changeFigure:$1 -id=$2 -motion=$3 -transform=$4 -next;$0"@ }, TemplateView { name: "changeFigure.enterLeft"@, description: "入场 (左侧)"@, template: "changeFigure:$1 -left -id=$2 -motion=$3 -transform=$4 -next;$0"@ }, TemplateView { name: "changeFigure.enterRight"@, description: "入场 (右侧)"@, template: "changeFigure:$1 -right -id=$2 -motion=$3 -transform=$4 -next;$0"@ }, TemplateView { name: "changeFigure.exit"@, description: "退场"@, template: "changeFigure: -id=$1 -next;$0"@ }],
        },
        CommandView {
            name: "bgm"@,
            description: "背景音乐"@,
            with_content: true,
            templates: seq![TemplateView { name: "bgm.unlock"@, description: "鉴赏"@, template: "bgm:$1 -unlockname=$2 -series=$3;$0"@ }],
        },
        CommandView {
            name: "playVideo"@,
            description: "播放视频"@,
            with_content: true,
            templates: seq![],
        },
        CommandView {
            name: "playEffect"@,
            description: "效果声音"@,
            with_content: true,
            templates: seq![TemplateView { name: "playEffect.repeat"@, description: "循环"@, template: "playEffect:$1 -id=$2;$0"@ }],
        },
        CommandView {
            name: "setAnimation"@,
            description: "调用动画"@,
            with_content: true,
            templates: seq![TemplateView { name: "setAnimation.next"@, description: "连续执行"@, template: "setAnimation:$1 -target=$2 -next;$0"@ }, TemplateView { name: "setAnimation.keep"@, description: "持续执行"@, template: "setAnimation:$1 -target=$2 -keep -next;$0"@ }, TemplateView { name: "setAnimation.parallel"@, description: "同步执行"@, template: "setAnimation:$1 -target=$2 -parallel -next;$0"@ }],
        },
        CommandView {
            name: "setComplexAnimation"@,
            description: "复杂动画"@,
            with_content: true,
            templates: seq![TemplateView { name: "setComplexAnimation"@, description: ""@, template: "setComplexAnimation:$1 -target=$2 -next;$0"@ }],
        },
        CommandView {
            name: "setTransform"@,
            description: "单段动画"@,
            with_content: true,
            templates: seq![TemplateView { name: "setTransform.next"@, description: "连续执行"@, template: "setTransform:$1 -target=$2 -duration=$3 -next;$0"@ }, TemplateView { name: "setTransform.keep"@, description: "持续执行"@, template: "setTransform:$1 -target=$2 -duration=$3 -keep -next;$0"@ }, TemplateView { name: "setTransform.parallel"@, description: "同步执行"@, template: "setTransform:$1 -target=$2 -duration=$3 -parallel -next;$0"@ }, TemplateView { name: "setTransform.clear"@, description: "清除"@, template: "setTransform:$1 -target=$2 -writeDefault -next;$0"@ }],
        },
        CommandView {
            name: "setTempAnimation"@,
            description: "多段动画"@,
            with_content: true,
            templates: seq![TemplateView { name: "setTempAnimation.next"@, description: "连续执行"@, template: "setTempAnimation:$1 -target=$2 -next;$0"@ }, TemplateView { name: "setTempAnimation.keep"@, description: "持续执行"@, template: "setTempAnimation:$1 -target=$2 -keep -next;$0"@ }, TemplateView { name: "setTempAnimation.parallel"@, description: "同步执行"@, template: "setTempAnimation:$1 -target=$2 -parallel -next;$0"@ }],
        },
        CommandView {
            name: "setTransition"@,
            description: "进出场动画"@,
            with_content: true,
            templates: seq![TemplateView { name: "setTransition.enter"@, description: "入场"@, template: "setTempAnimation:$1 -target=$2 -enter=$3;$0"@ }, TemplateView { name: "setTransition.exit"@, description: "出场"@, template: "setTempAnimation:$1 -target=$2 -exit=$3;$0"@ }],
        },
        CommandView {
            name: "pixiPerform"@,
            description: "使用特效"@,
            with_content: true,
            templates: seq![],
        },
        CommandView {
            name: "pixiInit"@,
            description: "清除特效"@,
            with_content: false,
            templates: seq![],
        },
        CommandView {
            name: "intro"@,
            description: "全屏文字"@,
            with_content: true,
            templates: seq![],
        },
        CommandView {
            name: "miniAvatar"@,
            description: "角落头像"@,
            with_content: true,
            templates: seq![],
        },
        CommandView {
            name: "setTextbox"@,
            description: "文本显示"@,
            with_content: true,
            templates: seq![],
        },
        CommandView {
            name: "filmMode"@,
            description: "电影模式"@,
            with_content: true,
            templates: seq![],
        },
        CommandView {
            name: "callScene"@,
            description: "调用场景"@,
            with_content: true,
            templates: seq![],
        },
        CommandView {
            name: "changeScene"@,
            description: "切换场景"@,
            with_content: true,
            templates: seq![],
        },
        CommandView {
            name: "choose"@,
            description: "分支选择"@,
            with_content: true,
            templates: seq![TemplateView { name: "choose.three"@, description: "三选一"@, template: "choose:$1:$2|$3:$4|$5:$6;$0"@ }, TemplateView { name: "choose.default"@, description: "默认选项"@, template: "choose:$1 -defaultChoice=$2;$0"@ }],
        },
        CommandView {
            name: "label"@,
            description: "标签"@,
            with_content: true,
            templates: seq![],
        },
        CommandView {
            name: "jumpLabel"@,
            description: "跳转标签"@,
            with_content: true,
            templates: seq![],
        },
        CommandView {
            name: "unlockCg"@,
            description: "鉴赏图片"@,
            with_content: true,
            templates: seq![TemplateView { name: "unlockCg"@, description: ""@, template: "unlockCg:$1 -name=$2 -series=$3;$0"@ }],
        },
        CommandView {
            name: "unlockBgm"@,
            description: "鉴赏音乐"@,
            with_content: true,
            templates: seq![TemplateView { name: "unlockBgm"@, description: ""@, template: "unlockBgm:$1 -name=$2 -series=$3;$0"@ }],
        },
        CommandView {
            name: "getUserInput"@,
            description: "获取输入"@,
            with_content: true,
            templates: seq![TemplateView { name: "getUserInput"@, description: ""@, template: "getUserInput:$1 -title=$2 -buttonText=$3 -defaultValue=$4;$0"@ }, TemplateView { name: "getUserInput.validate"@, description: "校验"@, template: "getUserInput:$1 -title=$2 -buttonText=$3 -defaultValue=$4 -rule=$5 -ruleFlag=$6 -ruleText=$7 -ruleButtonText=$8;$0"@ }],
        },
        CommandView {
            name: "setVar"@,
            description: "设置变量"@,
            with_content: true,
            templates: seq![TemplateView { name: "setVar"@, description: ""@, template: "setVar:$1=$2;$0"@ }, TemplateView { name: "setVar.global"@, description: ""@, template: "setVar:$1=$2 -global;$0"@ }],
        },
        CommandView {
            name: "showVars"@,
            description: "显示变量"@,
            with_content: false,
            templates: seq![],
        },
        CommandView {
            name: "wait"@,
            description: "等待"@,
            with_content: true,
            templates: seq![],
        },
        CommandView {
            name: "applyStyle"@,
            description: "应用样式"@,
            with_content: true,
            templates: seq![TemplateView { name: "applyStyle"@, description: ""@, template: "applyStyle:$1->$2;$0"@ }],
        },
        CommandView {
            name: "callSteam"@,
            description: "调用 Steam"@,
            with_content: true,
            templates: seq![TemplateView { name: "callSteam.achivement"@, description: "解锁成就"@, template: "callSteam:$1 -achivementId=$2;$0"@ }],
        },
        CommandView {
            name: "end"@,
            description: "结束游戏"@,
            with_content: false,
            templates: seq![],
        },
    ]
}

/// The commands of a scene, with their descriptions and templates.
pub fn default_commands() -> (r: Vec<CommandInfo>)
    ensures
        r@.len() == command_table().len(),
        forall|i: int| 0 <= i < r@.len() ==> #[trigger] r@[i]@ == command_table()[i],
{
    let mut commands: Vec<CommandInfo> = Vec::new();
    commands.push(CommandInfo {
        name: "say",
        description: "普通对话",
        with_content: true,
        templates: vec![
            CommandTemplate { name: "say", description: "", template: "$1:$2;$0" },
            CommandTemplate { name: "say.figure", description: "指定立绘", template: "$1:$2 -figureId=$3;$0" },
        ],
    });
    commands.push(CommandInfo {
        name: "changeBg",
        description: "切换背景",
        with_content: true,
        templates: vec![
            CommandTemplate { name: "changeBg.enter", description: "", template: "changeBg:$1 -transform=$2 -next;$0" },
            CommandTemplate { name: "changeBg.exit", description: "清除", template: "changeBg:$1 -next;$0" },
            CommandTemplate { name: "changeBg.unlock", description: "鉴赏", template: "changeBg:$1 -transform=$2 -unlockname=$3 -series=$4 -next;$0" },
        ],
    });
    commands.push(CommandInfo {
        name: "changeFigure",
        description: "切换立绘",
        with_content: true,
        templates: vec![
            CommandTemplate { name: "changeFigure.motion", description: "修改动作", template: "changeFigure:$1 -id=$2 -motion=$3 -next;$0" },
            CommandTemplate { name: "changeFigure.expression", description: "修改动作和表情", template: "changeFigure:$1 -id=$2 -motion=$3 -expression=$4 -next;$0" },
            CommandTemplate { name: "changeFigure.enter", description: "入场", template: "changeFigure:$1 -id=$2 -motion=$3 -transform=$4 -next;$0" },
            CommandTemplate { name: "changeFigure.enterLeft", description: "入场 (左侧)", template: "changeFigure:$1 -left -id=$2 -motion=$3 -transform=$4 -next;$0" },
            CommandTemplate { name: "changeFigure.enterRight", description: "入场 (右侧)", template: "changeFigure:$1 -right -id=$2 -motion=$3 -transform=$4 -next;$0" },
            CommandTemplate { name: "changeFigure.exit", description: "退场", template: "changeFigure: -id=$1 -next;$0" },
        ],
    });
    commands.push(CommandInfo {
        name: "bgm",
        description: "背景音乐",
        with_content: true,
        templates: vec![
            CommandTemplate { name: "bgm.unlock", description: "鉴赏", template: "bgm:$1 -unlockname=$2 -series=$3;$0" },
        ],
    });
    commands.push(CommandInfo {
        name: "playVideo",
        description: "播放视频",
        with_content: true,
        templates: Vec::new(),
    });
    commands.push(CommandInfo {
        name: "playEffect",
        description: "效果声音",
        with_content: true,
        templates: vec![
            CommandTemplate { name: "playEffect.repeat", description: "循环", template: "playEffect:$1 -id=$2;$0" },
        ],
    });
    commands.push(CommandInfo {
        name: "setAnimation",
        description: "调用动画",
        with_content: true,
        templates: vec![
            CommandTemplate { name: "setAnimation.next", description: "连续执行", template: "setAnimation:$1 -target=$2 -next;$0" },
            CommandTemplate { name: "setAnimation.keep", description: "持续执行", template: "setAnimation:$1 -target=$2 -keep -next;$0" },
            CommandTemplate { name: "setAnimation.parallel", description: "同步执行", template: "setAnimation:$1 -target=$2 -parallel -next;$0" },
        ],
    });
    commands.push(CommandInfo {
        name: "setComplexAnimation",
        description: "复杂动画",
        with_content: true,
        templates: vec![
            CommandTemplate { name: "setComplexAnimation", description: "", template: "setComplexAnimation:$1 -target=$2 -next;$0" },
        ],
    });
    commands.push(CommandInfo {
        name: "setTransform",
        description: "单段动画",
        with_content: true,
        templates: vec![
            CommandTemplate { name: "setTransform.next", description: "连续执行", template: "setTransform:$1 -target=$2 -duration=$3 -next;$0" },
            CommandTemplate { name: "setTransform.keep", description: "持续执行", template: "setTransform:$1 -target=$2 -duration=$3 -keep -next;$0" },
            CommandTemplate { name: "setTransform.parallel", description: "同步执行", template: "setTransform:$1 -target=$2 -duration=$3 -parallel -next;$0" },
            CommandTemplate { name: "setTransform.clear", description: "清除", template: "setTransform:$1 -target=$2 -writeDefault -next;$0" },
        ],
    });
    commands.push(CommandInfo {
        name: "setTempAnimation",
        description: "多段动画",
        with_content: true,
        templates: vec![
            CommandTemplate { name: "setTempAnimation.next", description: "连续执行", template: "setTempAnimation:$1 -target=$2 -next;$0" },
            CommandTemplate { name: "setTempAnimation.keep", description: "持续执行", template: "setTempAnimation:$1 -target=$2 -keep -next;$0" },
            CommandTemplate { name: "setTempAnimation.parallel", description: "同步执行", template: "setTempAnimation:$1 -target=$2 -parallel -next;$0" },
        ],
    });
    commands.push(CommandInfo {
        name: "setTransition",
        description: "进出场动画",
        with_content: true,
        templates: vec![
            CommandTemplate { name: "setTransition.enter", description: "入场", template: "setTempAnimation:$1 -target=$2 -enter=$3;$0" },
            CommandTemplate { name: "setTransition.exit", description: "出场", template: "setTempAnimation:$1 -target=$2 -exit=$3;$0" },
        ],
    });
    commands.push(CommandInfo {
        name: "pixiPerform",
        description: "使用特效",
        with_content: true,
        templates: Vec::new(),
    });
    commands.push(CommandInfo {
        name: "pixiInit",
        description: "清除特效",
        with_content: false,
        templates: Vec::new(),
    });
    commands.push(CommandInfo {
        name: "intro",
        description: "全屏文字",
        with_content: true,
        templates: Vec::new(),
    });
    commands.push(CommandInfo {
        name: "miniAvatar",
        description: "角落头像",
        with_content: true,
        templates: Vec::new(),
    });
    commands.push(CommandInfo {
        name: "setTextbox",
        description: "文本显示",
        with_content: true,
        templates: Vec::new(),
    });
    commands.push(CommandInfo {
        name: "filmMode",
        description: "电影模式",
        with_content: true,
        templates: Vec::new(),
    });
    commands.push(CommandInfo {
        name: "callScene",
        description: "调用场景",
        with_content: true,
        templates: Vec::new(),
    });
    commands.push(CommandInfo {
        name: "changeScene",
        description: "切换场景",
        with_content: true,
        templates: Vec::new(),
    });
    commands.push(CommandInfo {
        name: "choose",
        description: "分支选择",
        with_content: true,
        templates: vec![
            CommandTemplate { name: "choose.three", description: "三选一", template: "choose:$1:$2|$3:$4|$5:$6;$0" },
            CommandTemplate { name: "choose.default", description: "默认选项", template: "choose:$1 -defaultChoice=$2;$0" },
        ],
    });
    commands.push(CommandInfo {
        name: "label",
        description: "标签",
        with_content: true,
        templates: Vec::new(),
    });
    commands.push(CommandInfo {
        name: "jumpLabel",
        description: "跳转标签",
        with_content: true,
        templates: Vec::new(),
    });
    commands.push(CommandInfo {
        name: "unlockCg",
        description: "鉴赏图片",
        with_content: true,
        templates: vec![
            CommandTemplate { name: "unlockCg", description: "", template: "unlockCg:$1 -name=$2 -series=$3;$0" },
        ],
    });
    commands.push(CommandInfo {
        name: "unlockBgm",
        description: "鉴赏音乐",
        with_content: true,
        templates: vec![
            CommandTemplate { name: "unlockBgm", description: "", template: "unlockBgm:$1 -name=$2 -series=$3;$0" },
        ],
    });
    commands.push(CommandInfo {
        name: "getUserInput",
        description: "获取输入",
        with_content: true,
        templates: vec![
            CommandTemplate { name: "getUserInput", description: "", template: "getUserInput:$1 -title=$2 -buttonText=$3 -defaultValue=$4;$0" },
            CommandTemplate { name: "getUserInput.validate", description: "校验", template: "getUserInput:$1 -title=$2 -buttonText=$3 -defaultValue=$4 -rule=$5 -ruleFlag=$6 -ruleText=$7 -ruleButtonText=$8;$0" },
        ],
    });
    commands.push(CommandInfo {
        name: "setVar",
        description: "设置变量",
        with_content: true,
        templates: vec![
            CommandTemplate { name: "setVar", description: "", template: "setVar:$1=$2;$0" },
            CommandTemplate { name: "setVar.global", description: "", template: "setVar:$1=$2 -global;$0" },
        ],
    });
    commands.push(CommandInfo {
        name: "showVars",
        description: "显示变量",
        with_content: false,
        templates: Vec::new(),
    });
    commands.push(CommandInfo {
        name: "wait",
        description: "等待",
        with_content: true,
        templates: Vec::new(),
    });
    commands.push(CommandInfo {
        name: "applyStyle",
        description: "应用样式",
        with_content: true,
        templates: vec![
            CommandTemplate { name: "applyStyle", description: "", template: "applyStyle:$1->$2;$0" },
        ],
    });
    commands.push(CommandInfo {
        name: "callSteam",
        description: "调用 Steam",
        with_content: true,
        templates: vec![
            CommandTemplate { name: "callSteam.achivement", description: "解锁成就", template: "callSteam:$1 -achivementId=$2;$0" },
        ],
    });
    commands.push(CommandInfo {
        name: "end",
        description: "结束游戏",
        with_content: false,
        templates: Vec::new(),
    });
    proof {
        let t = command_table();
        assert forall|i: int| 0 <= i < commands@.len() implies #[trigger] commands@[i]@ == t[i] by {
            assert(commands@[i]@.templates =~= t[i].templates);
        }
    }
    commands
}

/// Completes the command at the start of a line: the speakers whose names
/// begin with `input`, the text typed before `position`, then what each of
/// the commands offers for it.
pub fn complete_command(input: &str, position: Position, speakers: &[(&String, usize)]) -> (r: Vec<
    PrimaryCompletion,
>)
    ensures
        completions_view(r@) == speaker_items(
            speakers_view(speakers@),
            input@,
            span_ending(position, utf8_len(input@) as usize),
            speakers@.len() as int,
        ) + commands_completions(
            command_table(),
            input@,
            span_ending(position, utf8_len(input@) as usize),
            command_table().len() as int,
        ),
{
    let ghost span = span_ending(position, utf8_len(input@) as usize);
    let mut completions = complete_speaker(speakers, input, position);
    let ghost head = completions_view(completions@);
    let commands = default_commands();
    let mut i: usize = 0;
    while i < commands.len()
        invariant
            commands@.len() == command_table().len(),
            forall|j: int| 0 <= j < commands@.len() ==> #[trigger] commands@[j]@ == command_table()[j],
            i <= commands@.len(),
            span == span_ending(position, utf8_len(input@) as usize),
            completions_view(completions@) == head + commands_completions(command_table(), input@, span, i as int),
        decreases commands@.len() - i,
    {
        let ghost before = completions_view(completions@);
        commands[i].complete(input, position, &mut completions);
        assert(commands@[i as int]@ == command_table()[i as int]);
        assert(completions_view(completions@) == before + command_completions(
            command_table()[i as int],
            input@,
            span,
        ));
        assert(completions_view(completions@) =~= head + commands_completions(command_table(), input@, span, i + 1));
        i += 1;
    }
    completions
}


/// Every template of a command is named after the command: the template's
/// name begins with the command's name, so that typing the command's name
/// brings up its templates too.
pub proof fn law_templates_named_after_command()
    ensures
        forall|i: int, j: int|
            0 <= i < command_table().len() && 0 <= j < command_table()[i].templates.len()
                ==> is_prefix(command_table()[i].name, #[trigger] command_table()[i].templates[j].name),
{
    let t = command_table();
    assert forall|i: int, j: int|
        0 <= i < t.len() && 0 <= j < t[i].templates.len() implies is_prefix(
        t[i].name,
        #[trigger] t[i].templates[j].name,
    ) by {
        if i == 0 {
            reveal_strlit("say");
            reveal_strlit("say");
            assert(t[i].templates[0].name.take(t[i].name.len() as int) =~= t[i].name);
            reveal_strlit("say.figure");
            assert(t[i].templates[1].name.take(t[i].name.len() as int) =~= t[i].name);
        } else if i == 1 {
            reveal_strlit("changeBg");
            reveal_strlit("changeBg.enter");
            assert(t[i].templates[0].name.take(t[i].name.len() as int) =~= t[i].name);
            reveal_strlit("changeBg.exit");
            assert(t[i].templates[1].name.take(t[i].name.len() as int) =~= t[i].name);
            reveal_strlit("changeBg.unlock");
            assert(t[i].templates[2].name.take(t[i].name.len() as int) =~= t[i].name);
        } else if i == 2 {
            reveal_strlit("changeFigure");
            reveal_strlit("changeFigure.motion");
            assert(t[i].templates[0].name.take(t[i].name.len() as int) =~= t[i].name);
            reveal_strlit("changeFigure.expression");
            assert(t[i].templates[1].name.take(t[i].name.len() as int) =~= t[i].name);
            reveal_strlit("changeFigure.enter");
            assert(t[i].templates[2].name.take(t[i].name.len() as int) =~= t[i].name);
            reveal_strlit("changeFigure.enterLeft");
            assert(t[i].templates[3].name.take(t[i].name.len() as int) =~= t[i].name);
            reveal_strlit("changeFigure.enterRight");
            assert(t[i].templates[4].name.take(t[i].name.len() as int) =~= t[i].name);
            reveal_strlit("changeFigure.exit");
            assert(t[i].templates[5].name.take(t[i].name.len() as int) =~= t[i].name);
        } else if i == 3 {
            reveal_strlit("bgm");
            reveal_strlit("bgm.unlock");
            assert(t[i].templates[0].name.take(t[i].name.len() as int) =~= t[i].name);
        } else if i == 5 {
            reveal_strlit("playEffect");
            reveal_strlit("playEffect.repeat");
            assert(t[i].templates[0].name.take(t[i].name.len() as int) =~= t[i].name);
        } else if i == 6 {
            reveal_strlit("setAnimation");
            reveal_strlit("setAnimation.next");
            assert(t[i].templates[0].name.take(t[i].name.len() as int) =~= t[i].name);
            reveal_strlit("setAnimation.keep");
            assert(t[i].templates[1].name.take(t[i].name.len() as int) =~= t[i].name);
            reveal_strlit("setAnimation.parallel");
            assert(t[i].templates[2].name.take(t[i].name.len() as int) =~= t[i].name);
        } else if i == 7 {
            reveal_strlit("setComplexAnimation");
            reveal_strlit("setComplexAnimation");
            assert(t[i].templates[0].name.take(t[i].name.len() as int) =~= t[i].name);
        } else if i == 8 {
            reveal_strlit("setTransform");
            reveal_strlit("setTransform.next");
            assert(t[i].templates[0].name.take(t[i].name.len() as int) =~= t[i].name);
            reveal_strlit("setTransform.keep");
            assert(t[i].templates[1].name.take(t[i].name.len() as int) =~= t[i].name);
            reveal_strlit("setTransform.parallel");
            assert(t[i].templates[2].name.take(t[i].name.len() as int) =~= t[i].name);
            reveal_strlit("setTransform.clear");
            assert(t[i].templates[3].name.take(t[i].name.len() as int) =~= t[i].name);
        } else if i == 9 {
            reveal_strlit("setTempAnimation");
            reveal_strlit("setTempAnimation.next");
            assert(t[i].templates[0].name.take(t[i].name.len() as int) =~= t[i].name);
            reveal_strlit("setTempAnimation.keep");
            assert(t[i].templates[1].name.take(t[i].name.len() as int) =~= t[i].name);
            reveal_strlit("setTempAnimation.parallel");
            assert(t[i].templates[2].name.take(t[i].name.len() as int) =~= t[i].name);
        } else if i == 10 {
            reveal_strlit("setTransition");
            reveal_strlit("setTransition.enter");
            assert(t[i].templates[0].name.take(t[i].name.len() as int) =~= t[i].name);
            reveal_strlit("setTransition.exit");
            assert(t[i].templates[1].name.take(t[i].name.len() as int) =~= t[i].name);
        } else if i == 19 {
            reveal_strlit("choose");
            reveal_strlit("choose.three");
            assert(t[i].templates[0].name.take(t[i].name.len() as int) =~= t[i].name);
            reveal_strlit("choose.default");
            assert(t[i].templates[1].name.take(t[i].name.len() as int) =~= t[i].name);
        } else if i == 22 {
            reveal_strlit("unlockCg");
            reveal_strlit("unlockCg");
            assert(t[i].templates[0].name.take(t[i].name.len() as int) =~= t[i].name);
        } else if i == 23 {
            reveal_strlit("unlockBgm");
            reveal_strlit("unlockBgm");
            assert(t[i].templates[0].name.take(t[i].name.len() as int) =~= t[i].name);
        } else if i == 24 {
            reveal_strlit("getUserInput");
            reveal_strlit("getUserInput");
            assert(t[i].templates[0].name.take(t[i].name.len() as int) =~= t[i].name);
            reveal_strlit("getUserInput.validate");
            assert(t[i].templates[1].name.take(t[i].name.len() as int) =~= t[i].name);
        } else if i == 25 {
            reveal_strlit("setVar");
            reveal_strlit("setVar");
            assert(t[i].templates[0].name.take(t[i].name.len() as int) =~= t[i].name);
            reveal_strlit("setVar.global");
            assert(t[i].templates[1].name.take(t[i].name.len() as int) =~= t[i].name);
        } else if i == 28 {
            reveal_strlit("applyStyle");
            reveal_strlit("applyStyle");
            assert(t[i].templates[0].name.take(t[i].name.len() as int) =~= t[i].name);
        } else if i == 29 {
            reveal_strlit("callSteam");
            reveal_strlit("callSteam.achivement");
            assert(t[i].templates[0].name.take(t[i].name.len() as int) =~= t[i].name);
        }
    }
}


/// No command is listed twice: the commands have distinct names.
pub proof fn law_command_names_distinct()
    ensures
        forall|i: int, j: int|
            0 <= i < j < command_table().len() ==> #[trigger] command_table()[i].name
                != #[trigger] command_table()[j].name,
{
    let t = command_table();
    reveal_strlit("say");
    reveal_strlit("changeBg");
    reveal_strlit("changeFigure");
    reveal_strlit("bgm");
    reveal_strlit("playVideo");
    reveal_strlit("playEffect");
    reveal_strlit("setAnimation");
    reveal_strlit("setComplexAnimation");
    reveal_strlit("setTransform");
    reveal_strlit("setTempAnimation");
    reveal_strlit("setTransition");
    reveal_strlit("pixiPerform");
    reveal_strlit("pixiInit");
    reveal_strlit("intro");
    reveal_strlit("miniAvatar");
    reveal_strlit("setTextbox");
    reveal_strlit("filmMode");
    reveal_strlit("callScene");
    reveal_strlit("changeScene");
    reveal_strlit("choose");
    reveal_strlit("label");
    reveal_strlit("jumpLabel");
    reveal_strlit("unlockCg");
    reveal_strlit("unlockBgm");
    reveal_strlit("getUserInput");
    reveal_strlit("setVar");
    reveal_strlit("showVars");
    reveal_strlit("wait");
    reveal_strlit("applyStyle");
    reveal_strlit("callSteam");
    reveal_strlit("end");
    assert forall|i: int, j: int| 0 <= i < j < t.len() implies #[trigger] t[i].name != #[trigger] t[j].name by {
        if i == 0 {
            assert(t[0].name.len() != t[1].name.len());
            assert(t[0].name.len() != t[2].name.len());
            assert(t[0].name[0] != t[3].name[0]);
            assert(t[0].name.len() != t[4].name.len());
            assert(t[0].name.len() != t[5].name.len());
            assert(t[0].name.len() != t[6].name.len());
            assert(t[0].name.len() != t[7].name.len());
            assert(t[0].name.len() != t[8].name.len());
            assert(t[0].name.len() != t[9].name.len());
            assert(t[0].name.len() != t[10].name.len());
            assert(t[0].name.len() != t[11].name.len());
            assert(t[0].name.len() != t[12].name.len());
            assert(t[0].name.len() != t[13].name.len());
            assert(t[0].name.len() != t[14].name.len());
            assert(t[0].name.len() != t[15].name.len());
            assert(t[0].name.len() != t[16].name.len());
            assert(t[0].name.len() != t[17].name.len());
            assert(t[0].name.len() != t[18].name.len());
            assert(t[0].name.len() != t[19].name.len());
            assert(t[0].name.len() != t[20].name.len());
            assert(t[0].name.len() != t[21].name.len());
            assert(t[0].name.len() != t[22].name.len());
            assert(t[0].name.len() != t[23].name.len());
            assert(t[0].name.len() != t[24].name.len());
            assert(t[0].name.len() != t[25].name.len());
            assert(t[0].name.len() != t[26].name.len());
            assert(t[0].name.len() != t[27].name.len());
            assert(t[0].name.len() != t[28].name.len());
            assert(t[0].name.len() != t[29].name.len());
            assert(t[0].name[0] != t[30].name[0]);
        } else if i == 1 {
            assert(t[1].name.len() != t[2].name.len());
            assert(t[1].name.len() != t[3].name.len());
            assert(t[1].name.len() != t[4].name.len());
            assert(t[1].name.len() != t[5].name.len());
            assert(t[1].name.len() != t[6].name.len());
            assert(t[1].name.len() != t[7].name.len());
            assert(t[1].name.len() != t[8].name.len());
            assert(t[1].name.len() != t[9].name.len());
            assert(t[1].name.len() != t[10].name.len());
            assert(t[1].name.len() != t[11].name.len());
            assert(t[1].name[0] != t[12].name[0]);
            assert(t[1].name.len() != t[13].name.len());
            assert(t[1].name.len() != t[14].name.len());
            assert(t[1].name.len() != t[15].name.len());
            assert(t[1].name[0] != t[16].name[0]);
            assert(t[1].name.len() != t[17].name.len());
            assert(t[1].name.len() != t[18].name.len());
            assert(t[1].name.len() != t[19].name.len());
            assert(t[1].name.len() != t[20].name.len());
            assert(t[1].name.len() != t[21].name.len());
            assert(t[1].name[0] != t[22].name[0]);
            assert(t[1].name.len() != t[23].name.len());
            assert(t[1].name.len() != t[24].name.len());
            assert(t[1].name.len() != t[25].name.len());
            assert(t[1].name[0] != t[26].name[0]);
            assert(t[1].name.len() != t[27].name.len());
            assert(t[1].name.len() != t[28].name.len());
            assert(t[1].name.len() != t[29].name.len());
            assert(t[1].name.len() != t[30].name.len());
        } else if i == 2 {
            assert(t[2].name.len() != t[3].name.len());
            assert(t[2].name.len() != t[4].name.len());
            assert(t[2].name.len() != t[5].name.len());
            assert(t[2].name[0] != t[6].name[0]);
            assert(t[2].name.len() != t[7].name.len());
            assert(t[2].name[0] != t[8].name[0]);
            assert(t[2].name.len() != t[9].name.len());
            assert(t[2].name.len() != t[10].name.len());
            assert(t[2].name.len() != t[11].name.len());
            assert(t[2].name.len() != t[12].name.len());
            assert(t[2].name.len() != t[13].name.len());
            assert(t[2].name.len() != t[14].name.len());
            assert(t[2].name.len() != t[15].name.len());
            assert(t[2].name.len() != t[16].name.len());
            assert(t[2].name.len() != t[17].name.len());
            assert(t[2].name.len() != t[18].name.len());
            assert(t[2].name.len() != t[19].name.len());
            assert(t[2].name.len() != t[20].name.len());
            assert(t[2].name.len() != t[21].name.len());
            assert(t[2].name.len() != t[22].name.len());
            assert(t[2].name.len() != t[23].name.len());
            assert(t[2].name[0] != t[24].name[0]);
            assert(t[2].name.len() != t[25].name.len());
            assert(t[2].name.len() != t[26].name.len());
            assert(t[2].name.len() != t[27].name.len());
            assert(t[2].name.len() != t[28].name.len());
            assert(t[2].name.len() != t[29].name.len());
            assert(t[2].name.len() != t[30].name.len());
        } else if i == 3 {
            assert(t[3].name.len() != t[4].name.len());
            assert(t[3].name.len() != t[5].name.len());
            assert(t[3].name.len() != t[6].name.len());
            assert(t[3].name.len() != t[7].name.len());
            assert(t[3].name.len() != t[8].name.len());
            assert(t[3].name.len() != t[9].name.len());
            assert(t[3].name.len() != t[10].name.len());
            assert(t[3].name.len() != t[11].name.len());
            assert(t[3].name.len() != t[12].name.len());
            assert(t[3].name.len() != t[13].name.len());
            assert(t[3].name.len() != t[14].name.len());
            assert(t[3].name.len() != t[15].name.len());
            assert(t[3].name.len() != t[16].name.len());
            assert(t[3].name.len() != t[17].name.len());
            assert(t[3].name.len() != t[18].name.len());
            assert(t[3].name.len() != t[19].name.len());
            assert(t[3].name.len() != t[20].name.len());
            assert(t[3].name.len() != t[21].name.len());
            assert(t[3].name.len() != t[22].name.len());
            assert(t[3].name.len() != t[23].name.len());
            assert(t[3].name.len() != t[24].name.len());
            assert(t[3].name.len() != t[25].name.len());
            assert(t[3].name.len() != t[26].name.len());
            assert(t[3].name.len() != t[27].name.len());
            assert(t[3].name.len() != t[28].name.len());
            assert(t[3].name.len() != t[29].name.len());
            assert(t[3].name[0] != t[30].name[0]);
        } else if i == 4 {
            assert(t[4].name.len() != t[5].name.len());
            assert(t[4].name.len() != t[6].name.len());
            assert(t[4].name.len() != t[7].name.len());
            assert(t[4].name.len() != t[8].name.len());
            assert(t[4].name.len() != t[9].name.len());
            assert(t[4].name.len() != t[10].name.len());
            assert(t[4].name.len() != t[11].name.len());
            assert(t[4].name.len() != t[12].name.len());
            assert(t[4].name.len() != t[13].name.len());
            assert(t[4].name.len() != t[14].name.len());
            assert(t[4].name.len() != t[15].name.len());
            assert(t[4].name.len() != t[16].name.len());
            assert(t[4].name[0] != t[17].name[0]);
            assert(t[4].name.len() != t[18].name.len());
            assert(t[4].name.len() != t[19].name.len());
            assert(t[4].name.len() != t[20].name.len());
            assert(t[4].name[0] != t[21].name[0]);
            assert(t[4].name.len() != t[22].name.len());
            assert(t[4].name[0] != t[23].name[0]);
            assert(t[4].name.len() != t[24].name.len());
            assert(t[4].name.len() != t[25].name.len());
            assert(t[4].name.len() != t[26].name.len());
            assert(t[4].name.len() != t[27].name.len());
            assert(t[4].name.len() != t[28].name.len());
            assert(t[4].name[0] != t[29].name[0]);
            assert(t[4].name.len() != t[30].name.len());
        } else if i == 5 {
            assert(t[5].name.len() != t[6].name.len());
            assert(t[5].name.len() != t[7].name.len());
            assert(t[5].name.len() != t[8].name.len());
            assert(t[5].name.len() != t[9].name.len());
            assert(t[5].name.len() != t[10].name.len());
            assert(t[5].name.len() != t[11].name.len());
            assert(t[5].name.len() != t[12].name.len());
            assert(t[5].name.len() != t[13].name.len());
            assert(t[5].name[0] != t[14].name[0]);
            assert(t[5].name[0] != t[15].name[0]);
            assert(t[5].name.len() != t[16].name.len());
            assert(t[5].name.len() != t[17].name.len());
            assert(t[5].name.len() != t[18].name.len());
            assert(t[5].name.len() != t[19].name.len());
            assert(t[5].name.len() != t[20].name.len());
            assert(t[5].name.len() != t[21].name.len());
            assert(t[5].name.len() != t[22].name.len());
            assert(t[5].name.len() != t[23].name.len());
            assert(t[5].name.len() != t[24].name.len());
            assert(t[5].name.len() != t[25].name.len());
            assert(t[5].name.len() != t[26].name.len());
            assert(t[5].name.len() != t[27].name.len());
            assert(t[5].name[0] != t[28].name[0]);
            assert(t[5].name.len() != t[29].name.len());
            assert(t[5].name.len() != t[30].name.len());
        } else if i == 6 {
            assert(t[6].name.len() != t[7].name.len());
            assert(t[6].name[3] != t[8].name[3]);
            assert(t[6].name.len() != t[9].name.len());
            assert(t[6].name.len() != t[10].name.len());
            assert(t[6].name.len() != t[11].name.len());
            assert(t[6].name.len() != t[12].name.len());
            assert(t[6].name.len() != t[13].name.len());
            assert(t[6].name.len() != t[14].name.len());
            assert(t[6].name.len() != t[15].name.len());
            assert(t[6].name.len() != t[16].name.len());
            assert(t[6].name.len() != t[17].name.len());
            assert(t[6].name.len() != t[18].name.len());
            assert(t[6].name.len() != t[19].name.len());
            assert(t[6].name.len() != t[20].name.len());
            assert(t[6].name.len() != t[21].name.len());
            assert(t[6].name.len() != t[22].name.len());
            assert(t[6].name.len() != t[23].name.len());
            assert(t[6].name[0] != t[24].name[0]);
            assert(t[6].name.len() != t[25].name.len());
            assert(t[6].name.len() != t[26].name.len());
            assert(t[6].name.len() != t[27].name.len());
            assert(t[6].name.len() != t[28].name.len());
            assert(t[6].name.len() != t[29].name.len());
            assert(t[6].name.len() != t[30].name.len());
        } else if i == 7 {
            assert(t[7].name.len() != t[8].name.len());
            assert(t[7].name.len() != t[9].name.len());
            assert(t[7].name.len() != t[10].name.len());
            assert(t[7].name.len() != t[11].name.len());
            assert(t[7].name.len() != t[12].name.len());
            assert(t[7].name.len() != t[13].name.len());
            assert(t[7].name.len() != t[14].name.len());
            assert(t[7].name.len() != t[15].name.len());
            assert(t[7].name.len() != t[16].name.len());
            assert(t[7].name.len() != t[17].name.len());
            assert(t[7].name.len() != t[18].name.len());
            assert(t[7].name.len() != t[19].name.len());
            assert(t[7].name.len() != t[20].name.len());
            assert(t[7].name.len() != t[21].name.len());
            assert(t[7].name.len() != t[22].name.len());
            assert(t[7].name.len() != t[23].name.len());
            assert(t[7].name.len() != t[24].name.len());
            assert(t[7].name.len() != t[25].name.len());
            assert(t[7].name.len() != t[26].name.len());
            assert(t[7].name.len() != t[27].name.len());
            assert(t[7].name.len() != t[28].name.len());
            assert(t[7].name.len() != t[29].name.len());
            assert(t[7].name.len() != t[30].name.len());
        } else if i == 8 {
            assert(t[8].name.len() != t[9].name.len());
            assert(t[8].name.len() != t[10].name.len());
            assert(t[8].name.len() != t[11].name.len());
            assert(t[8].name.len() != t[12].name.len());
            assert(t[8].name.len() != t[13].name.len());
            assert(t[8].name.len() != t[14].name.len());
            assert(t[8].name.len() != t[15].name.len());
            assert(t[8].name.len() != t[16].name.len());
            assert(t[8].name.len() != t[17].name.len());
            assert(t[8].name.len() != t[18].name.len());
            assert(t[8].name.len() != t[19].name.len());
            assert(t[8].name.len() != t[20].name.len());
            assert(t[8].name.len() != t[21].name.len());
            assert(t[8].name.len() != t[22].name.len());
            assert(t[8].name.len() != t[23].name.len());
            assert(t[8].name[0] != t[24].name[0]);
            assert(t[8].name.len() != t[25].name.len());
            assert(t[8].name.len() != t[26].name.len());
            assert(t[8].name.len() != t[27].name.len());
            assert(t[8].name.len() != t[28].name.len());
            assert(t[8].name.len() != t[29].name.len());
            assert(t[8].name.len() != t[30].name.len());
        } else if i == 9 {
            assert(t[9].name.len() != t[10].name.len());
            assert(t[9].name.len() != t[11].name.len());
            assert(t[9].name.len() != t[12].name.len());
            assert(t[9].name.len() != t[13].name.len());
            assert(t[9].name.len() != t[14].name.len());
            assert(t[9].name.len() != t[15].name.len());
            assert(t[9].name.len() != t[16].name.len());
            assert(t[9].name.len() != t[17].name.len());
            assert(t[9].name.len() != t[18].name.len());
            assert(t[9].name.len() != t[19].name.len());
            assert(t[9].name.len() != t[20].name.len());
            assert(t[9].name.len() != t[21].name.len());
            assert(t[9].name.len() != t[22].name.len());
            assert(t[9].name.len() != t[23].name.len());
            assert(t[9].name.len() != t[24].name.len());
            assert(t[9].name.len() != t[25].name.len());
            assert(t[9].name.len() != t[26].name.len());
            assert(t[9].name.len() != t[27].name.len());
            assert(t[9].name.len() != t[28].name.len());
            assert(t[9].name.len() != t[29].name.len());
            assert(t[9].name.len() != t[30].name.len());
        } else if i == 10 {
            assert(t[10].name.len() != t[11].name.len());
            assert(t[10].name.len() != t[12].name.len());
            assert(t[10].name.len() != t[13].name.len());
            assert(t[10].name.len() != t[14].name.len());
            assert(t[10].name.len() != t[15].name.len());
            assert(t[10].name.len() != t[16].name.len());
            assert(t[10].name.len() != t[17].name.len());
            assert(t[10].name.len() != t[18].name.len());
            assert(t[10].name.len() != t[19].name.len());
            assert(t[10].name.len() != t[20].name.len());
            assert(t[10].name.len() != t[21].name.len());
            assert(t[10].name.len() != t[22].name.len());
            assert(t[10].name.len() != t[23].name.len());
            assert(t[10].name.len() != t[24].name.len());
            assert(t[10].name.len() != t[25].name.len());
            assert(t[10].name.len() != t[26].name.len());
            assert(t[10].name.len() != t[27].name.len());
            assert(t[10].name.len() != t[28].name.len());
            assert(t[10].name.len() != t[29].name.len());
            assert(t[10].name.len() != t[30].name.len());
        } else if i == 11 {
            assert(t[11].name.len() != t[12].name.len());
            assert(t[11].name.len() != t[13].name.len());
            assert(t[11].name.len() != t[14].name.len());
            assert(t[11].name.len() != t[15].name.len());
            assert(t[11].name.len() != t[16].name.len());
            assert(t[11].name.len() != t[17].name.len());
            assert(t[11].name[0] != t[18].name[0]);
            assert(t[11].name.len() != t[19].name.len());
            assert(t[11].name.len() != t[20].name.len());
            assert(t[11].name.len() != t[21].name.len());
            assert(t[11].name.len() != t[22].name.len());
            assert(t[11].name.len() != t[23].name.len());
            assert(t[11].name.len() != t[24].name.len());
            assert(t[11].name.len() != t[25].name.len());
            assert(t[11].name.len() != t[26].name.len());
            assert(t[11].name.len() != t[27].name.len());
            assert(t[11].name.len() != t[28].name.len());
            assert(t[11].name.len() != t[29].name.len());
            assert(t[11].name.len() != t[30].name.len());
        } else if i == 12 {
            assert(t[12].name.len() != t[13].name.len());
            assert(t[12].name.len() != t[14].name.len());
            assert(t[12].name.len() != t[15].name.len());
            assert(t[12].name[0] != t[16].name[0]);
            assert(t[12].name.len() != t[17].name.len());
            assert(t[12].name.len() != t[18].name.len());
            assert(t[12].name.len() != t[19].name.len());
            assert(t[12].name.len() != t[20].name.len());
            assert(t[12].name.len() != t[21].name.len());
            assert(t[12].name[0] != t[22].name[0]);
            assert(t[12].name.len() != t[23].name.len());
            assert(t[12].name.len() != t[24].name.len());
            assert(t[12].name.len() != t[25].name.len());
            assert(t[12].name[0] != t[26].name[0]);
            assert(t[12].name.len() != t[27].name.len());
            assert(t[12].name.len() != t[28].name.len());
            assert(t[12].name.len() != t[29].name.len());
            assert(t[12].name.len() != t[30].name.len());
        } else if i == 13 {
            assert(t[13].name.len() != t[14].name.len());
            assert(t[13].name.len() != t[15].name.len());
            assert(t[13].name.len() != t[16].name.len());
            assert(t[13].name.len() != t[17].name.len());
            assert(t[13].name.len() != t[18].name.len());
            assert(t[13].name.len() != t[19].name.len());
            assert(t[13].name[0] != t[20].name[0]);
            assert(t[13].name.len() != t[21].name.len());
            assert(t[13].name.len() != t[22].name.len());
            assert(t[13].name.len() != t[23].name.len());
            assert(t[13].name.len() != t[24].name.len());
            assert(t[13].name.len() != t[25].name.len());
            assert(t[13].name.len() != t[26].name.len());
            assert(t[13].name.len() != t[27].name.len());
            assert(t[13].name.len() != t[28].name.len());
            assert(t[13].name.len() != t[29].name.len());
            assert(t[13].name.len() != t[30].name.len());
        } else if i == 14 {
            assert(t[14].name[0] != t[15].name[0]);
            assert(t[14].name.len() != t[16].name.len());
            assert(t[14].name.len() != t[17].name.len());
            assert(t[14].name.len() != t[18].name.len());
            assert(t[14].name.len() != t[19].name.len());
            assert(t[14].name.len() != t[20].name.len());
            assert(t[14].name.len() != t[21].name.len());
            assert(t[14].name.len() != t[22].name.len());
            assert(t[14].name.len() != t[23].name.len());
            assert(t[14].name.len() != t[24].name.len());
            assert(t[14].name.len() != t[25].name.len());
            assert(t[14].name.len() != t[26].name.len());
            assert(t[14].name.len() != t[27].name.len());
            assert(t[14].name[0] != t[28].name[0]);
            assert(t[14].name.len() != t[29].name.len());
            assert(t[14].name.len() != t[30].name.len());
        } else if i == 15 {
            assert(t[15].name.len() != t[16].name.len());
            assert(t[15].name.len() != t[17].name.len());
            assert(t[15].name.len() != t[18].name.len());
            assert(t[15].name.len() != t[19].name.len());
            assert(t[15].name.len() != t[20].name.len());
            assert(t[15].name.len() != t[21].name.len());
            assert(t[15].name.len() != t[22].name.len());
            assert(t[15].name.len() != t[23].name.len());
            assert(t[15].name.len() != t[24].name.len());
            assert(t[15].name.len() != t[25].name.len());
            assert(t[15].name.len() != t[26].name.len());
            assert(t[15].name.len() != t[27].name.len());
            assert(t[15].name[0] != t[28].name[0]);
            assert(t[15].name.len() != t[29].name.len());
            assert(t[15].name.len() != t[30].name.len());
        } else if i == 16 {
            assert(t[16].name.len() != t[17].name.len());
            assert(t[16].name.len() != t[18].name.len());
            assert(t[16].name.len() != t[19].name.len());
            assert(t[16].name.len() != t[20].name.len());
            assert(t[16].name.len() != t[21].name.len());
            assert(t[16].name[0] != t[22].name[0]);
            assert(t[16].name.len() != t[23].name.len());
            assert(t[16].name.len() != t[24].name.len());
            assert(t[16].name.len() != t[25].name.len());
            assert(t[16].name[0] != t[26].name[0]);
            assert(t[16].name.len() != t[27].name.len());
            assert(t[16].name.len() != t[28].name.len());
            assert(t[16].name.len() != t[29].name.len());
            assert(t[16].name.len() != t[30].name.len());
        } else if i == 17 {
            assert(t[17].name.len() != t[18].name.len());
            assert(t[17].name.len() != t[19].name.len());
            assert(t[17].name.len() != t[20].name.len());
            assert(t[17].name[0] != t[21].name[0]);
            assert(t[17].name.len() != t[22].name.len());
            assert(t[17].name[0] != t[23].name[0]);
            assert(t[17].name.len() != t[24].name.len());
            assert(t[17].name.len() != t[25].name.len());
            assert(t[17].name.len() != t[26].name.len());
            assert(t[17].name.len() != t[27].name.len());
            assert(t[17].name.len() != t[28].name.len());
            assert(t[17].name[5] != t[29].name[5]);
            assert(t[17].name.len() != t[30].name.len());
        } else if i == 18 {
            assert(t[18].name.len() != t[19].name.len());
            assert(t[18].name.len() != t[20].name.len());
            assert(t[18].name.len() != t[21].name.len());
            assert(t[18].name.len() != t[22].name.len());
            assert(t[18].name.len() != t[23].name.len());
            assert(t[18].name.len() != t[24].name.len());
            assert(t[18].name.len() != t[25].name.len());
            assert(t[18].name.len() != t[26].name.len());
            assert(t[18].name.len() != t[27].name.len());
            assert(t[18].name.len() != t[28].name.len());
            assert(t[18].name.len() != t[29].name.len());
            assert(t[18].name.len() != t[30].name.len());
        } else if i == 19 {
            assert(t[19].name.len() != t[20].name.len());
            assert(t[19].name.len() != t[21].name.len());
            assert(t[19].name.len() != t[22].name.len());
            assert(t[19].name.len() != t[23].name.len());
            assert(t[19].name.len() != t[24].name.len());
            assert(t[19].name[0] != t[25].name[0]);
            assert(t[19].name.len() != t[26].name.len());
            assert(t[19].name.len() != t[27].name.len());
            assert(t[19].name.len() != t[28].name.len());
            assert(t[19].name.len() != t[29].name.len());
            assert(t[19].name.len() != t[30].name.len());
        } else if i == 20 {
            assert(t[20].name.len() != t[21].name.len());
            assert(t[20].name.len() != t[22].name.len());
            assert(t[20].name.len() != t[23].name.len());
            assert(t[20].name.len() != t[24].name.len());
            assert(t[20].name.len() != t[25].name.len());
            assert(t[20].name.len() != t[26].name.len());
            assert(t[20].name.len() != t[27].name.len());
            assert(t[20].name.len() != t[28].name.len());
            assert(t[20].name.len() != t[29].name.len());
            assert(t[20].name.len() != t[30].name.len());
        } else if i == 21 {
            assert(t[21].name.len() != t[22].name.len());
            assert(t[21].name[0] != t[23].name[0]);
            assert(t[21].name.len() != t[24].name.len());
            assert(t[21].name.len() != t[25].name.len());
            assert(t[21].name.len() != t[26].name.len());
            assert(t[21].name.len() != t[27].name.len());
            assert(t[21].name.len() != t[28].name.len());
            assert(t[21].name[0] != t[29].name[0]);
            assert(t[21].name.len() != t[30].name.len());
        } else if i == 22 {
            assert(t[22].name.len() != t[23].name.len());
            assert(t[22].name.len() != t[24].name.len());
            assert(t[22].name.len() != t[25].name.len());
            assert(t[22].name[0] != t[26].name[0]);
            assert(t[22].name.len() != t[27].name.len());
            assert(t[22].name.len() != t[28].name.len());
            assert(t[22].name.len() != t[29].name.len());
            assert(t[22].name.len() != t[30].name.len());
        } else if i == 23 {
            assert(t[23].name.len() != t[24].name.len());
            assert(t[23].name.len() != t[25].name.len());
            assert(t[23].name.len() != t[26].name.len());
            assert(t[23].name.len() != t[27].name.len());
            assert(t[23].name.len() != t[28].name.len());
            assert(t[23].name[0] != t[29].name[0]);
            assert(t[23].name.len() != t[30].name.len());
        } else if i == 24 {
            assert(t[24].name.len() != t[25].name.len());
            assert(t[24].name.len() != t[26].name.len());
            assert(t[24].name.len() != t[27].name.len());
            assert(t[24].name.len() != t[28].name.len());
            assert(t[24].name.len() != t[29].name.len());
            assert(t[24].name.len() != t[30].name.len());
        } else if i == 25 {
            assert(t[25].name.len() != t[26].name.len());
            assert(t[25].name.len() != t[27].name.len());
            assert(t[25].name.len() != t[28].name.len());
            assert(t[25].name.len() != t[29].name.len());
            assert(t[25].name.len() != t[30].name.len());
        } else if i == 26 {
            assert(t[26].name.len() != t[27].name.len());
            assert(t[26].name.len() != t[28].name.len());
            assert(t[26].name.len() != t[29].name.len());
            assert(t[26].name.len() != t[30].name.len());
        } else if i == 27 {
            assert(t[27].name.len() != t[28].name.len());
            assert(t[27].name.len() != t[29].name.len());
            assert(t[27].name.len() != t[30].name.len());
        } else if i == 28 {
            assert(t[28].name.len() != t[29].name.len());
            assert(t[28].name.len() != t[30].name.len());
        } else if i == 29 {
            assert(t[29].name.len() != t[30].name.len());
        } else if i == 30 {
        }
    }
}


/// Every completion offered for the command at the start of a line is named
/// with the text typed so far at its front: nothing that does not begin
/// with the input is offered.
pub proof fn law_command_completions_begin_with_input(
    speakers: Seq<(Seq<char>, usize)>,
    input: Seq<char>,
    span: Range,
)
    ensures
        ({
            let all = speaker_items(speakers, input, span, speakers.len() as int) + commands_completions(
                command_table(),
                input,
                span,
                command_table().len() as int,
            );
            forall|i: int| 0 <= i < all.len() ==> is_prefix(input, #[trigger] all[i].name)
        }),
{
    lemma_speaker_items_prefix(speakers, input, span, speakers.len() as int);
    lemma_commands_prefix(command_table(), input, span, command_table().len() as int);
    let a = speaker_items(speakers, input, span, speakers.len() as int);
    let b = commands_completions(command_table(), input, span, command_table().len() as int);
    assert forall|i: int| 0 <= i < (a + b).len() implies is_prefix(input, #[trigger] (a + b)[i].name) by {
        if i < a.len() {
            assert((a + b)[i] == a[i]);
        } else {
            assert((a + b)[i] == b[i - a.len()]);
        }
    }
}

proof fn lemma_speaker_items_prefix(
    speakers: Seq<(Seq<char>, usize)>,
    input: Seq<char>,
    span: Range,
    n: int,
)
    ensures
        forall|i: int|
            0 <= i < speaker_items(speakers, input, span, n).len() ==> is_prefix(
                input,
                #[trigger] speaker_items(speakers, input, span, n)[i].name,
            ),
    decreases n,
{
    if n > 0 {
        lemma_speaker_items_prefix(speakers, input, span, n - 1);
        let prev = speaker_items(speakers, input, span, n - 1);
        let all = speaker_items(speakers, input, span, n);
        assert forall|i: int| 0 <= i < all.len() implies is_prefix(input, #[trigger] all[i].name) by {
            if i < prev.len() {
                assert(all[i] == prev[i]);
            }
        }
    }
}

proof fn lemma_template_items_prefix(cmd: CommandView, input: Seq<char>, span: Range, n: int)
    ensures
        forall|i: int|
            0 <= i < template_items(cmd, input, span, n).len() ==> is_prefix(
                input,
                #[trigger] template_items(cmd, input, span, n)[i].name,
            ),
    decreases n,
{
    if n > 0 {
        lemma_template_items_prefix(cmd, input, span, n - 1);
        let prev = template_items(cmd, input, span, n - 1);
        let all = template_items(cmd, input, span, n);
        assert forall|i: int| 0 <= i < all.len() implies is_prefix(input, #[trigger] all[i].name) by {
            if i < prev.len() {
                assert(all[i] == prev[i]);
            }
        }
    }
}

proof fn lemma_commands_prefix(cmds: Seq<CommandView>, input: Seq<char>, span: Range, n: int)
    ensures
        forall|i: int|
            0 <= i < commands_completions(cmds, input, span, n).len() ==> is_prefix(
                input,
                #[trigger] commands_completions(cmds, input, span, n)[i].name,
            ),
    decreases n,
{
    if n > 0 {
        lemma_commands_prefix(cmds, input, span, n - 1);
        let cmd = cmds[n - 1];
        lemma_template_items_prefix(cmd, input, span, cmd.templates.len() as int);
        let prev = commands_completions(cmds, input, span, n - 1);
        let head = if is_prefix(input, cmd.name) {
            seq![command_item(cmd, span)]
        } else {
            Seq::<CompletionView>::empty()
        };
        let ts = template_items(cmd, input, span, cmd.templates.len() as int);
        let all = commands_completions(cmds, input, span, n);
        assert(all =~= prev + (head + ts));
        assert forall|i: int| 0 <= i < all.len() implies is_prefix(input, #[trigger] all[i].name) by {
            if i < prev.len() {
                assert(all[i] == prev[i]);
            } else if i < prev.len() + head.len() {
                assert(all[i] == head[i - prev.len()]);
            } else {
                assert(all[i] == ts[i - prev.len() - head.len()]);
            }
        }
    }
}

/// The commands that take no content: `pixiInit`, `showVars` and `end`.
pub open spec fn without_content(name: Seq<char>) -> bool {
    name == "pixiInit"@ || name == "showVars"@ || name == "end"@
}

/// Completing a command writes its name and then `:` where content
/// follows (`say`, `changeBg`, `changeFigure`, `bgm` and every other
/// command that takes content), and `;` only after `pixiInit`, `showVars`
/// and `end`, which end the statement at once.
pub proof fn law_commands_open_their_content(span: Range)
    ensures
        forall|i: int|
            0 <= i < command_table().len() ==> (#[trigger] command_item(command_table()[i], span)).insert_text
                == Some(command_table()[i].name.push(
                if without_content(command_table()[i].name) {
                    ';'
                } else {
                    ':'
                },
            )),
{
    reveal_strlit("say");
    reveal_strlit("changeBg");
    reveal_strlit("changeFigure");
    reveal_strlit("bgm");
    reveal_strlit("playVideo");
    reveal_strlit("playEffect");
    reveal_strlit("setAnimation");
    reveal_strlit("setComplexAnimation");
    reveal_strlit("setTransform");
    reveal_strlit("setTempAnimation");
    reveal_strlit("setTransition");
    reveal_strlit("pixiPerform");
    reveal_strlit("pixiInit");
    reveal_strlit("intro");
    reveal_strlit("miniAvatar");
    reveal_strlit("setTextbox");
    reveal_strlit("filmMode");
    reveal_strlit("callScene");
    reveal_strlit("changeScene");
    reveal_strlit("choose");
    reveal_strlit("label");
    reveal_strlit("jumpLabel");
    reveal_strlit("unlockCg");
    reveal_strlit("unlockBgm");
    reveal_strlit("getUserInput");
    reveal_strlit("setVar");
    reveal_strlit("showVars");
    reveal_strlit("wait");
    reveal_strlit("applyStyle");
    reveal_strlit("callSteam");
    reveal_strlit("end");
    let t = command_table();
    assert forall|i: int| 0 <= i < t.len() implies t[i].with_content == !without_content(t[i].name) by {
        let n = t[i].name;
        let a = "pixiInit"@;
        let b = "showVars"@;
        let c = "end"@;
        if n.len() == 8 {
            assert(n[0] != a[0] || n =~= a);
            assert(n[0] != b[0] || n =~= b);
        }
        if n.len() == 3 {
            assert(n[0] != c[0] || n =~= c);
        }
    }
}

} // verus!
