use webgal_lsp::command::{complete_command, default_commands, ItemKind, PrimaryCompletion};
use webgal_lsp::position::{Position, Range};

fn pos(line: u32, character: u32) -> Position {
    Position { line, character }
}

fn summary(c: &PrimaryCompletion) -> (String, ItemKind, Option<String>, Option<String>, Option<String>) {
    (
        c.name.clone(),
        c.kind,
        c.description.clone(),
        c.sort_key.clone(),
        c.insert_text.clone(),
    )
}

fn s(x: &str) -> Option<String> {
    Some(x.to_string())
}

#[test]
fn complete_command_offers_command_and_templates() {
    let speakers: Vec<(&String, usize)> = Vec::new();
    let completions = complete_command("say", pos(4, 3), &speakers);
    let got: Vec<_> = completions.iter().map(summary).collect();
    assert_eq!(
        got,
        vec![
            ("say".to_string(), ItemKind::Function, s("普通对话"), s("asay"), s("say:")),
            ("say".to_string(), ItemKind::Snippet, s("普通对话"), s("asay"), s("$1:$2;$0")),
            (
                "say.figure".to_string(),
                ItemKind::Snippet,
                s("普通对话 (指定立绘)"),
                s("asay.figure"),
                s("$1:$2 -figureId=$3;$0")
            ),
        ]
    );
    for c in &completions {
        assert_eq!(c.span, Range { start: pos(4, 0), end: pos(4, 3) });
    }
}

#[test]
fn complete_command_without_content_ends_with_semicolon() {
    let speakers: Vec<(&String, usize)> = Vec::new();
    let completions = complete_command("en", pos(0, 2), &speakers);
    let got: Vec<_> = completions.iter().map(summary).collect();
    assert_eq!(
        got,
        vec![("end".to_string(), ItemKind::Function, s("结束游戏"), s("aend"), s("end;"))]
    );
}

#[test]
fn complete_command_lists_speakers_first() {
    let alice = "sakura".to_string();
    let bob = "bob".to_string();
    let sam = "sam".to_string();
    let speakers = vec![(&alice, 3usize), (&bob, 1usize), (&sam, 7usize)];
    let completions = complete_command("sa", pos(1, 2), &speakers);
    let got: Vec<_> = completions.iter().map(summary).collect();
    assert_eq!(got[0], (
        "sakura".to_string(),
        ItemKind::Variable,
        s("人物"),
        Some(format!("b{:016x}sakura", !3usize)),
        s("sakura:")
    ));
    assert_eq!(got[1], (
        "sam".to_string(),
        ItemKind::Variable,
        s("人物"),
        Some(format!("b{:016x}sam", !7usize)),
        s("sam:")
    ));
    assert_eq!(got[2].0, "say");
    assert_eq!(got.len(), 5);
    // more often named speakers sort first
    assert!(got[1].3 < got[0].3);
}

#[test]
fn complete_command_empty_input_offers_everything() {
    let speakers: Vec<(&String, usize)> = Vec::new();
    let completions = complete_command("", pos(0, 0), &speakers);
    let commands = default_commands();
    let templates: usize = commands.iter().map(|c| c.templates.len()).sum();
    assert_eq!(completions.len(), commands.len() + templates);
    assert_eq!(commands.len(), 31);
    assert_eq!(templates, 36);
}

#[test]
fn complete_command_no_match() {
    let speakers: Vec<(&String, usize)> = Vec::new();
    assert!(complete_command("xyz", pos(0, 3), &speakers).is_empty());
}

#[test]
fn default_commands_templates_are_named_after_commands() {
    for command in default_commands() {
        for template in &command.templates {
            assert!(template.name.starts_with(command.name));
        }
    }
}

#[test]
fn complete_command_span_counts_bytes() {
    let speakers: Vec<(&String, usize)> = Vec::new();
    let completions = complete_command("set", pos(2, 10), &speakers);
    assert!(!completions.is_empty());
    assert!(completions.iter().all(|c| c.span == Range { start: pos(2, 7), end: pos(2, 10) }));
    let names: Vec<_> = completions.iter().filter(|c| c.kind == ItemKind::Function).map(|c| c.name.as_str()).collect();
    assert_eq!(
        names,
        vec!["setAnimation", "setComplexAnimation", "setTransform", "setTempAnimation", "setTransition", "setTextbox", "setVar"]
    );
}

use webgal_lsp::comment::complete_comment;

#[test]
fn complete_comment_offers_nolint_keyword() {
    let completions = complete_comment("nol", pos(0, 20));
    assert_eq!(completions.len(), 1);
    let c = &completions[0];
    assert_eq!(c.name, "nolint");
    assert_eq!(c.kind, ItemKind::Keyword);
    assert_eq!(c.description, s("诊断抑制配置"));
    assert_eq!(c.insert_text, s("nolint:$1;$0"));
    assert_eq!(c.sort_key, None);
    assert_eq!(c.span, Range { start: pos(0, 17), end: pos(0, 20) });
    assert_eq!(complete_comment("", pos(0, 0)).len(), 1);
}

#[test]
fn complete_comment_lists_all_codes_after_keyword() {
    let keyword = complete_comment("nolint:", pos(1, 7));
    assert_eq!(keyword.len(), 1);
    assert_eq!(keyword[0].name, "nolint");
    let completions = complete_comment("nolint:WG001|", pos(1, 13));
    let names: Vec<_> = completions.iter().map(|c| c.name.clone()).collect();
    let expected: Vec<_> = (1..=16).map(|code| format!("WG{code:03}")).collect();
    assert_eq!(names, expected);
    assert!(completions.iter().all(|c| c.kind == ItemKind::EnumMember && c.insert_text.is_none()));
    assert!(completions.iter().all(|c| c.span == Range { start: pos(1, 13), end: pos(1, 13) }));
}

#[test]
fn complete_comment_filters_by_code_after_last_bar() {
    let completions = complete_comment("nolint:WG001|WG00", pos(0, 17));
    let names: Vec<_> = completions.iter().map(|c| c.name.clone()).collect();
    let expected: Vec<_> = (1..=9).map(|code| format!("WG{code:03}")).collect();
    assert_eq!(names, expected);
    assert!(completions.iter().all(|c| c.span == Range { start: pos(0, 13), end: pos(0, 17) }));
    let tens: Vec<_> = complete_comment("nolint:WG01", pos(0, 11)).into_iter().map(|c| c.name).collect();
    assert_eq!(tens, vec!["WG010", "WG011", "WG012", "WG013", "WG014", "WG015", "WG016"]);
}

#[test]
fn complete_comment_stops_after_semicolon_or_other_text() {
    assert!(complete_comment("nolint:WG001;", pos(0, 13)).is_empty());
    assert!(complete_comment("todo", pos(0, 4)).is_empty());
    assert!(complete_comment("nolint:WG9", pos(0, 10)).is_empty());
}

use webgal_lsp::argument::{complete_ease_enum, complete_enum, complete_font_size_enum};

#[test]
fn complete_enum_keeps_list_order_in_sort_keys() {
    let items = [("alpha", "A"), ("beta", "B"), ("alpine", "C")];
    let completions = complete_enum(&items, ItemKind::EnumMember, "al", pos(0, 8));
    let got: Vec<_> = completions.iter().map(summary).collect();
    assert_eq!(
        got,
        vec![
            ("alpha".to_string(), ItemKind::EnumMember, s("A"), s("000_alpha"), None),
            ("alpine".to_string(), ItemKind::EnumMember, s("C"), s("002_alpine"), None),
        ]
    );
    assert!(completions.iter().all(|c| c.span == Range { start: pos(0, 6), end: pos(0, 8) }));
}

#[test]
fn complete_enum_pads_long_lists() {
    let names: Vec<String> = (0..120).map(|i| format!("v{i}")).collect();
    let items: Vec<(&str, &str)> = names.iter().map(|n| (n.as_str(), "d")).collect();
    let completions = complete_enum(&items, ItemKind::Variable, "v11", pos(0, 3));
    let keys: Vec<_> = completions.iter().map(|c| c.sort_key.clone().unwrap()).collect();
    assert_eq!(
        keys,
        vec![
            "011_v11", "110_v110", "111_v111", "112_v112", "113_v113", "114_v114", "115_v115",
            "116_v116", "117_v117", "118_v118", "119_v119"
        ]
    );
}

#[test]
fn complete_font_size_and_ease() {
    let sizes: Vec<_> = complete_font_size_enum("", pos(0, 0)).into_iter().map(|c| c.name).collect();
    assert_eq!(sizes, vec!["small", "medium", "large"]);
    let eases = complete_ease_enum("ease", pos(0, 4));
    let got: Vec<_> = eases.iter().map(summary).collect();
    assert_eq!(
        got,
        vec![
            ("easeIn".to_string(), ItemKind::EnumMember, s("缓入"), s("001_easeIn"), None),
            ("easeOut".to_string(), ItemKind::EnumMember, s("缓出"), s("002_easeOut"), None),
            ("easeInOut".to_string(), ItemKind::EnumMember, s("缓入缓出"), s("003_easeInOut"), None),
        ]
    );
    assert_eq!(complete_ease_enum("", pos(0, 0)).len(), 14);
}
