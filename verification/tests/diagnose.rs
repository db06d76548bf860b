use webgal_lsp::diagnose::{
    diagnose_environment, diagnose_resource, diagnose_styled, find_str, DiagnosticLevel,
    DiagnosticLocation, FigureData, PrimaryDiagnostic, ProjectResources, ReportStyle,
};
use webgal_lsp::path_tree::folder::Folder;
use webgal_lsp::path_tree::node::Node;
use webgal_lsp::scene::{idents_of, IdentRef, SentenceData};
use webgal_lsp::scene_highlight::Sentence;

fn folder(paths: &[&str]) -> Folder<()> {
    let mut f = Folder::new();
    for p in paths {
        f.insert(p, Node::Item(()));
    }
    f
}

fn resources() -> ProjectResources {
    let mut figure: Folder<FigureData> = Folder::new();
    figure.insert("a.png", Node::Item(FigureData::Image));
    figure.insert(
        "m/model.json",
        Node::Item(FigureData::Live2d {
            motions: vec!["idle".to_string()],
            expressions: vec!["smile".to_string()],
        }),
    );
    figure.insert("w.wmdl", Node::Item(FigureData::Wmdl { import: "m/model.json".to_string() }));
    ProjectResources {
        scene: folder(&["start.txt", "end.txt"]),
        animation: folder(&["shake.json"]),
        background: folder(&["bg.png"]),
        figure,
        bgm: folder(&["theme.mp3"]),
        vocal: folder(&["v1.ogg"]),
        video: folder(&["op.mp4"]),
        labels: vec!["here".to_string()],
    }
}

fn summary(d: &PrimaryDiagnostic) -> (DiagnosticLocation, &'static str, DiagnosticLevel, String) {
    (d.span, d.code, d.level, d.message.clone())
}

fn s(x: &str) -> Option<String> {
    Some(x.to_string())
}

#[test]
fn missing_background_and_animations() {
    let r = resources();
    let sentence = SentenceData::ChangeBackground {
        background: s("nope.png"),
        enter: s("shake"),
        exit: s("fade"),
        series: None,
        duration: None,
        enter_duration: None,
        exit_duration: None,
    };
    let got: Vec<_> = diagnose_resource("changeBg:nope.png;", &sentence, &r).iter().map(summary).collect();
    assert_eq!(
        got,
        vec![
            (DiagnosticLocation::Content, "WG007", DiagnosticLevel::Error, "找不到或无法识别背景: nope.png".to_string()),
            (DiagnosticLocation::ArgumentValue("exit"), "WG007", DiagnosticLevel::Error, "找不到或无法识别动画: fade".to_string()),
        ]
    );
}

#[test]
fn present_resources_give_nothing() {
    let r = resources();
    assert!(diagnose_resource("", &SentenceData::CallScene { scene: "start.txt".to_string() }, &r).is_empty());
    assert!(diagnose_resource("", &SentenceData::CallScene { scene: "./start.txt".to_string() }, &r).is_empty());
    assert!(diagnose_resource("", &SentenceData::PlayVideo { video: "op.mp4".to_string() }, &r).is_empty());
    assert!(diagnose_resource("", &SentenceData::Other(Sentence::End), &r).is_empty());
    let missing = diagnose_environment("", &SentenceData::ChangeScene { scene: "x.txt".to_string() }, &r);
    assert_eq!(missing[0].message, "找不到或无法识别场景: x.txt");
}

#[test]
fn missing_vocal_points_at_its_text() {
    let r = resources();
    let sentence = SentenceData::Say { speaker: s("甲"), figure_id: None, vocal: s("v2.ogg") };
    let d = diagnose_resource("甲:你好 -v2.ogg;", &sentence, &r);
    assert_eq!(d.len(), 1);
    assert_eq!(d[0].span, DiagnosticLocation::Span(12, 18));
    let d = diagnose_resource("甲:你好 -vocal=v2;", &sentence, &r);
    assert_eq!(d[0].span, DiagnosticLocation::Span(0, "甲:你好 -vocal=v2;".len()));
    let present = SentenceData::Say { speaker: None, figure_id: None, vocal: s("v1.ogg") };
    assert!(diagnose_resource("x -v1.ogg;", &present, &r).is_empty());
}

#[test]
fn figure_checks_follow_imports_and_stop_on_missing_figure() {
    let r = resources();
    let change = |figure: &str, motion: &str, enter: &str| SentenceData::ChangeFigure {
        figure: s(figure),
        id: None,
        mouth_open: s("missing.png"),
        mouth_half_open: None,
        mouth_close: None,
        eyes_open: s("a.png"),
        eyes_close: None,
        motion: s(motion),
        expression: s("smile"),
        enter: s(enter),
        exit: None,
        duration: None,
        enter_duration: None,
        exit_duration: None,
    };
    let got: Vec<_> = diagnose_resource("", &change("w.wmdl", "run", "fade"), &r).iter().map(summary).collect();
    assert_eq!(
        got,
        vec![
            (DiagnosticLocation::ArgumentValue("mouthOpen"), "WG007", DiagnosticLevel::Error, "找不到或无法识别图片立绘: missing.png".to_string()),
            (DiagnosticLocation::ArgumentValue("motion"), "WG007", DiagnosticLevel::Error, "找不到或无法识别立绘动作: run".to_string()),
            (DiagnosticLocation::ArgumentValue("enter"), "WG007", DiagnosticLevel::Error, "找不到或无法识别动画: fade".to_string()),
        ]
    );
    let got: Vec<_> = diagnose_resource("", &change("gone.png", "run", "fade"), &r).iter().map(summary).collect();
    assert_eq!(got.len(), 2);
    assert_eq!(got[1].3, "找不到或无法识别立绘: gone.png");
}

#[test]
fn animations_and_choices() {
    let r = resources();
    assert!(diagnose_resource("", &SentenceData::SetAnimation { animation: "shake".to_string(), target_id: None }, &r).is_empty());
    assert_eq!(
        diagnose_resource("", &SentenceData::SetComplexAnimation { animation: "spin".to_string(), target_id: None, duration: None }, &r)[0].message,
        "找不到或无法识别复杂动画: spin"
    );
    assert!(diagnose_resource("", &SentenceData::SetComplexAnimation { animation: "universalSoftIn".to_string(), target_id: None, duration: None }, &r).is_empty());
    let choose = SentenceData::Choose {
        targets: vec![("start.txt".to_string(), 9, 18), ("here".to_string(), 21, 25), ("lost".to_string(), 28, 32)],
    };
    let got: Vec<_> = diagnose_resource("", &choose, &r).iter().map(summary).collect();
    assert_eq!(
        got,
        vec![(DiagnosticLocation::Span(28, 32), "WG007", DiagnosticLevel::Error, "找不到或无法识别场景选项: lost".to_string())]
    );
}

#[test]
fn find_str_gives_byte_offsets() {
    assert_eq!(find_str("你好abc", "abc"), Some(6));
    assert_eq!(find_str("abc", ""), Some(0));
    assert_eq!(find_str("abc", "d"), None);
    assert_eq!(find_str("ab", "abc"), None);
}

#[test]
fn idents_of_statements() {
    let say = SentenceData::Say { speaker: s("甲"), figure_id: s("fig-left"), vocal: None };
    assert_eq!(idents_of(&say), vec![IdentRef::Speaker("甲".to_string()), IdentRef::Id("fig-left".to_string())]);
    let bg = SentenceData::ChangeBackground {
        background: None,
        enter: None,
        exit: None,
        series: s("s1"),
        duration: Some(800),
        enter_duration: None,
        exit_duration: Some(1200),
    };
    assert_eq!(
        idents_of(&bg),
        vec![IdentRef::Series("s1".to_string()), IdentRef::Duration(800), IdentRef::Duration(1200)]
    );
    assert_eq!(idents_of(&SentenceData::Wait { duration: 5 }), vec![IdentRef::Duration(5)]);
    assert_eq!(idents_of(&SentenceData::JumpLabel { label: "l".to_string() }), vec![IdentRef::Label("l".to_string())]);
    assert_eq!(idents_of(&SentenceData::Bgm { bgm: None, enter: Some(3), series: s("x") }), vec![IdentRef::Duration(3), IdentRef::Series("x".to_string())]);
    assert!(idents_of(&SentenceData::Other(Sentence::End)).is_empty());
}

fn figure_change(figure: Option<String>, motion: Option<String>, enter: Option<String>) -> SentenceData {
    SentenceData::ChangeFigure {
        figure,
        id: None,
        mouth_open: None,
        mouth_half_open: None,
        mouth_close: None,
        eyes_open: None,
        eyes_close: None,
        motion,
        expression: None,
        enter,
        exit: None,
        duration: None,
        enter_duration: None,
        exit_duration: None,
    }
}

#[test]
fn standalone_style_warns_and_skips_blank_paths() {
    let r = resources();
    let background = |b: &str| SentenceData::ChangeBackground {
        background: s(b),
        enter: None,
        exit: None,
        series: None,
        duration: None,
        enter_duration: None,
        exit_duration: None,
    };
    assert!(diagnose_styled(ReportStyle::Standalone, "", &background("none"), &r).is_empty());
    assert!(diagnose_styled(ReportStyle::Standalone, "", &background(""), &r).is_empty());
    assert_eq!(diagnose_styled(ReportStyle::Service, "", &background("none"), &r).len(), 1);
    let got: Vec<_> = diagnose_styled(ReportStyle::Standalone, "", &background("nope.png"), &r)
        .iter()
        .map(summary)
        .collect();
    assert_eq!(
        got,
        vec![(DiagnosticLocation::Content, "WG007", DiagnosticLevel::Warning, "找不到或无法识别背景: nope.png".to_string())]
    );
    let bgm = SentenceData::Bgm { bgm: s("none"), enter: None, series: None };
    assert!(diagnose_styled(ReportStyle::Standalone, "", &bgm, &r).is_empty());
    let effect = SentenceData::PlayEffect { vocal: s("gone.mp3"), id: s("loop") };
    assert!(diagnose_styled(ReportStyle::Standalone, "", &effect, &r).is_empty());
    assert_eq!(diagnose_styled(ReportStyle::Service, "", &effect, &r).len(), 1);
    let effect = SentenceData::PlayEffect { vocal: s("gone.mp3"), id: None };
    assert_eq!(diagnose_styled(ReportStyle::Standalone, "", &effect, &r)[0].level, DiagnosticLevel::Warning);
}

#[test]
fn standalone_style_reads_figures_as_found() {
    let r = resources();
    // A model that imports another is not followed: its motions are none.
    let got: Vec<_> = diagnose_styled(ReportStyle::Standalone, "", &figure_change(s("w.wmdl"), s("idle"), None), &r)
        .iter()
        .map(summary)
        .collect();
    assert_eq!(
        got,
        vec![(DiagnosticLocation::ArgumentValue("motion"), "WG007", DiagnosticLevel::Warning, "找不到或无法识别立绘动作: idle".to_string())]
    );
    assert!(diagnose_styled(ReportStyle::Service, "", &figure_change(s("w.wmdl"), s("idle"), None), &r).is_empty());
    // A plain image lists no motions.
    assert_eq!(diagnose_styled(ReportStyle::Standalone, "", &figure_change(s("a.png"), s("idle"), None), &r).len(), 1);
    assert!(diagnose_styled(ReportStyle::Service, "", &figure_change(s("a.png"), s("idle"), None), &r).is_empty());
    // A blank figure is not looked up, its animations still are.
    let got: Vec<_> = diagnose_styled(ReportStyle::Standalone, "", &figure_change(s("none"), None, s("fade")), &r)
        .iter()
        .map(summary)
        .collect();
    assert_eq!(
        got,
        vec![(DiagnosticLocation::ArgumentValue("enter"), "WG007", DiagnosticLevel::Warning, "找不到或无法识别动画: fade".to_string())]
    );
    // A missing figure stops the checks.
    assert_eq!(diagnose_styled(ReportStyle::Standalone, "", &figure_change(s("x.png"), s("idle"), s("fade")), &r).len(), 1);
}
