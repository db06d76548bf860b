use webgal_lsp::json::highlight::TokenType as JsonTokenType;
use webgal_lsp::scene_highlight::{
    highlight_apply_style_content, Sentence, highlight_comment,
    highlight_set_variable_content, TokenType,
};

fn triples(v: Vec<(std::ops::Range<usize>, TokenType)>) -> Vec<(usize, usize, TokenType)> {
    v.into_iter().map(|(r, t)| (r.start, r.end, t)).collect()
}


#[test]
fn token_ids_follow_legend() {
    let all = [
        TokenType::Type, TokenType::Variable, TokenType::Parameter, TokenType::Property, TokenType::EnumMember, TokenType::Function, TokenType::Keyword, TokenType::Comment, TokenType::String,
        TokenType::Number, TokenType::Regex, TokenType::Operator,
    ];
    let ids: Vec<u32> = all.iter().map(|t| t.to_id()).collect();
    assert_eq!(ids, (0..12).collect::<Vec<u32>>());
}

#[test]
fn json_classes_map_to_scene_classes() {
    assert_eq!(TokenType::from(JsonTokenType::Keyword), TokenType::Keyword);
    assert_eq!(TokenType::from(JsonTokenType::String), TokenType::String);
    assert_eq!(TokenType::from(JsonTokenType::Number), TokenType::Number);
    assert_eq!(TokenType::from(JsonTokenType::Operator), TokenType::Operator);
}

#[test]
fn argument_classes() {
    assert_eq!(TokenType::from_argument("speaker", Sentence::Say), Some(TokenType::Type));
    assert_eq!(TokenType::from_argument("figureId", Sentence::Say), Some(TokenType::Variable));
    assert_eq!(TokenType::from_argument("enter", Sentence::Say), Some(TokenType::EnumMember));
    assert_eq!(TokenType::from_argument("enter", Sentence::Bgm), Some(TokenType::Number));
    assert_eq!(TokenType::from_argument("exit", Sentence::Bgm), Some(TokenType::EnumMember));
    assert_eq!(TokenType::from_argument("volume", Sentence::Say), Some(TokenType::Number));
    assert_eq!(TokenType::from_argument("fontColor", Sentence::Say), Some(TokenType::String));
    assert_eq!(TokenType::from_argument("vocal", Sentence::Say), Some(TokenType::Regex));
    assert_eq!(TokenType::from_argument("when", Sentence::Say), Some(TokenType::Regex));
    assert_eq!(TokenType::from_argument("writeReturnTo", Sentence::Say), Some(TokenType::Parameter));
    assert_eq!(TokenType::from_argument("transform", Sentence::Say), None);
    assert_eq!(TokenType::from_argument("unknown", Sentence::Say), None);
}

#[test]
fn set_variable_content_spans() {
    assert_eq!(
        triples(highlight_set_variable_content("hp=100")),
        vec![(0, 2, TokenType::Variable), (2, 3, TokenType::Operator), (3, 6, TokenType::Regex)]
    );
    assert_eq!(
        triples(highlight_set_variable_content("名字=a=b")),
        vec![(0, 6, TokenType::Variable), (6, 7, TokenType::Operator), (7, 10, TokenType::Regex)]
    );
    assert!(highlight_set_variable_content("novalue").is_empty());
}

#[test]
fn apply_style_content_spans() {
    assert_eq!(
        triples(highlight_apply_style_content("a->b,c->d")),
        vec![
            (0, 1, TokenType::Regex),
            (1, 3, TokenType::Operator),
            (3, 4, TokenType::Regex),
            (5, 6, TokenType::Regex),
            (6, 8, TokenType::Operator),
            (8, 9, TokenType::Regex)
        ]
    );
    assert_eq!(
        triples(highlight_apply_style_content("x,样->z")),
        vec![(2, 5, TokenType::Regex), (5, 7, TokenType::Operator), (7, 8, TokenType::Regex)]
    );
    assert!(highlight_apply_style_content("").is_empty());
    assert!(highlight_apply_style_content("a-b,c").is_empty());
}

#[test]
fn plain_comment_spans() {
    assert_eq!(
        triples(highlight_comment("wait:1;hello", 7, 12)),
        vec![(6, 7, TokenType::Comment), (7, 12, TokenType::Comment)]
    );
    assert_eq!(triples(highlight_comment("hello", 0, 5)), vec![(0, 5, TokenType::Comment)]);
}

#[test]
fn nolint_comment_spans() {
    assert_eq!(
        triples(highlight_comment("wait:1;nolint:WG001|WG002", 7, 25)),
        vec![
            (6, 7, TokenType::Comment),
            (7, 13, TokenType::Keyword),
            (13, 14, TokenType::Operator),
            (14, 19, TokenType::EnumMember),
            (19, 20, TokenType::Operator),
            (20, 25, TokenType::EnumMember)
        ]
    );
    assert_eq!(
        triples(highlight_comment("a;nolint:WG001;备注", 2, 21)),
        vec![
            (1, 2, TokenType::Comment),
            (2, 8, TokenType::Keyword),
            (8, 9, TokenType::Operator),
            (9, 14, TokenType::EnumMember),
            (14, 21, TokenType::Comment)
        ]
    );
    assert_eq!(
        triples(highlight_comment("nolint:", 0, 7)),
        vec![(0, 6, TokenType::Keyword), (6, 7, TokenType::Operator)]
    );
}

#[test]
fn enter_is_an_animation_except_for_music() {
    assert_eq!(TokenType::from_argument("enter", Sentence::ChangeFigure), Some(TokenType::EnumMember));
    assert_eq!(TokenType::from_argument("enter", Sentence::Bgm), Some(TokenType::Number));
}

#[test]
fn content_classes() {
    assert_eq!(TokenType::from_content(Sentence::ChangeBackground), Some(TokenType::Regex));
    assert_eq!(TokenType::from_content(Sentence::SetAnimation), Some(TokenType::EnumMember));
    assert_eq!(TokenType::from_content(Sentence::Label), Some(TokenType::Variable));
    assert_eq!(TokenType::from_content(Sentence::Wait), Some(TokenType::Number));
    assert_eq!(TokenType::from_content(Sentence::Say), None);
    assert_eq!(TokenType::from_content(Sentence::SetTransform), None);
    assert_eq!(TokenType::from_content(Sentence::End), None);
    assert!(Sentence::Say.is_say());
    assert!(!Sentence::Intro.is_say());
}

#[test]
fn default_sentence_is_a_comment() {
    assert_eq!(Sentence::default(), Sentence::Comment);
}
