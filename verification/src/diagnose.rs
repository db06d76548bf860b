//! Resource diagnostics of a scene statement: the backgrounds, figures,
//! music, videos, scenes, animations and choice targets that a statement
//! names must exist in the project.

use vstd::prelude::*;
use vstd::string::StringExecFns;
use crate::path_tree::folder::{Folder, lookup};
use crate::path_tree::node::Node;
use crate::path_tree::util::{canonicalize, canonical};
use crate::scene::SentenceData;
use crate::text::{str_eq, utf8_len, chars_of, byte_offsets};

verus! {

broadcast use vstd::string::group_string_axioms;

/// How serious a diagnostic is.
#[derive(Debug, Clone, Copy, PartialEq, Eq, Structural)]
pub enum DiagnosticLevel {
    Information,
    Warning,
    Error,
}

/// Where on its line a diagnostic points.
#[derive(Debug, Clone, Copy, PartialEq, Eq)]
pub enum DiagnosticLocation {
    /// The statement's content.
    Content,
    /// The value of the named argument.
    ArgumentValue(&'static str),
    /// A byte span of the line.
    Span(usize, usize),
}

/// A diagnostic of one line.
#[derive(Debug, Clone)]
pub struct PrimaryDiagnostic {
    pub span: DiagnosticLocation,
    pub code: &'static str,
    pub level: DiagnosticLevel,
    pub message: String,
}

/// A location as plain values.
pub enum LocationView {
    Content,
    ArgumentValue(Seq<char>),
    Span(usize, usize),
}

/// A diagnostic as plain values.
pub struct DiagnosticView {
    pub span: LocationView,
    pub code: Seq<char>,
    pub level: DiagnosticLevel,
    pub message: Seq<char>,
}

impl View for DiagnosticLocation {
    type V = LocationView;

    open spec fn view(&self) -> LocationView {
        match self {
            DiagnosticLocation::Content => LocationView::Content,
            DiagnosticLocation::ArgumentValue(n) => LocationView::ArgumentValue(n@),
            DiagnosticLocation::Span(a, b) => LocationView::Span(*a, *b),
        }
    }
}

impl View for PrimaryDiagnostic {
    type V = DiagnosticView;

    open spec fn view(&self) -> DiagnosticView {
        DiagnosticView {
            span: self.span@,
            code: self.code@,
            level: self.level,
            message: self.message@,
        }
    }
}

/// The views of a list of diagnostics.
pub open spec fn diagnostics_view(v: Seq<PrimaryDiagnostic>) -> Seq<DiagnosticView> {
    v.map_values(|d: PrimaryDiagnostic| d@)
}

/// A figure resource, as far as diagnostics read it.
#[derive(Debug, Clone)]
pub enum FigureData {
    /// A plain image.
    Image,
    /// A Live2D model with its motions and expressions.
    Live2d { motions: Vec<String>, expressions: Vec<String> },
    /// A model that imports another figure.
    Wmdl { import: String },
    /// Any other kind of figure.
    Other,
}

/// The resources of a project that statements name, by kind, and the labels
/// that its scenes define.
pub struct ProjectResources {
    pub scene: Folder<()>,
    pub animation: Folder<()>,
    pub background: Folder<()>,
    pub figure: Folder<FigureData>,
    pub bgm: Folder<()>,
    pub vocal: Folder<()>,
    pub video: Folder<()>,
    pub labels: Vec<String>,
}

impl ProjectResources {
    /// Every folder is well-formed.
    pub open spec fn wf(&self) -> bool {
        &&& self.scene.wf()
        &&& self.animation.wf()
        &&& self.background.wf()
        &&& self.figure.wf()
        &&& self.bgm.wf()
        &&& self.vocal.wf()
        &&& self.video.wf()
    }
}

/// A path made canonical, or left as it is when it cannot be.
pub open spec fn canon_or(p: Seq<char>) -> Seq<char> {
    match canonical(p) {
        Some(c) => c,
        None => p,
    }
}

/// The folder holds something at the path, taken canonical when it can be.
pub open spec fn holds<T>(f: Folder<T>, p: Seq<char>) -> bool {
    lookup(f@, canon_or(p)) is Some
}

/// The message for a resource that is missing.
pub open spec fn missing(description: Seq<char>, path: Seq<char>) -> Seq<char> {
    "找不到或无法识别"@ + description + ": "@ + path
}

/// How a server reports missing resources.
#[derive(Debug, Clone, Copy, PartialEq, Eq, Structural)]
pub enum ReportStyle {
    /// As errors; figures are followed through one import, and motions and
    /// expressions are checked on Live2D models only.
    Service,
    /// As warnings; blank paths (empty or `none`) of backgrounds, figures,
    /// music and effects name nothing, an effect with an id is not
    /// checked, figures are read as found, and a motion or expression of a
    /// figure that lists none is missing.
    Standalone,
}

/// The level at which a style reports a missing resource.
pub open spec fn level_of(style: ReportStyle) -> DiagnosticLevel {
    match style {
        ReportStyle::Service => DiagnosticLevel::Error,
        ReportStyle::Standalone => DiagnosticLevel::Warning,
    }
}

/// A path that names nothing: empty, or `none`.
pub open spec fn blank(p: Seq<char>) -> bool {
    p.len() == 0 || p == seq!['n', 'o', 'n', 'e']
}

/// The diagnostic for a missing resource at `span`.
pub open spec fn missing_at(level: DiagnosticLevel, span: LocationView, description: Seq<char>, path: Seq<char>) -> DiagnosticView {
    DiagnosticView { span, code: "WG007"@, level, message: missing(description, path) }
}

/// One diagnostic when `ok` fails, none otherwise.
pub open spec fn unless(ok: bool, d: DiagnosticView) -> Seq<DiagnosticView> {
    if ok {
        Seq::empty()
    } else {
        seq![d]
    }
}

/// The diagnostics of an optional path argument named `name`.
pub open spec fn argument_check<T>(
    level: DiagnosticLevel,
    name: Seq<char>,
    path: Option<String>,
    f: Folder<T>,
    description: Seq<char>,
) -> Seq<DiagnosticView> {
    match path {
        Some(p) => unless(holds(f, p@), missing_at(level, LocationView::ArgumentValue(name), description, p@)),
        None => Seq::empty(),
    }
}

/// The diagnostics of a content path.
pub open spec fn content_check<T>(level: DiagnosticLevel, path: Seq<char>, f: Folder<T>, description: Seq<char>) -> Seq<
    DiagnosticView,
> {
    unless(holds(f, path), missing_at(level, LocationView::Content, description, path))
}

/// The animations folder holds `{name}.json`.
pub open spec fn has_animation(r: ProjectResources, name: Seq<char>) -> bool {
    lookup(r.animation@, name + ".json"@) is Some
}

/// The diagnostics of an optional animation argument named `arg`.
pub open spec fn animation_check(level: DiagnosticLevel, r: ProjectResources, arg: Seq<char>, a: Option<String>) -> Seq<
    DiagnosticView,
> {
    match a {
        Some(x) => unless(
            has_animation(r, x@),
            missing_at(level, LocationView::ArgumentValue(arg), "动画"@, x@),
        ),
        None => Seq::empty(),
    }
}

/// The figure at a path, following one import of a model that imports
/// another figure.
pub open spec fn figure_at(r: ProjectResources, p: Seq<char>) -> Option<FigureData> {
    match lookup(r.figure@, p) {
        Some(crate::path_tree::folder::NodeView::Item(info)) => match info {
            FigureData::Wmdl { import } => match lookup(r.figure@, import@) {
                Some(crate::path_tree::folder::NodeView::Item(i)) => Some(i),
                _ => None,
            },
            _ => Some(info),
        },
        _ => None,
    }
}

/// The names' views.
pub open spec fn names_view(v: Seq<String>) -> Seq<Seq<char>> {
    v.map_values(|s: String| s@)
}

/// The figure read as found at a path, without following imports.
pub open spec fn figure_found(r: ProjectResources, p: Seq<char>) -> Option<FigureData> {
    match lookup(r.figure@, p) {
        Some(crate::path_tree::folder::NodeView::Item(info)) => Some(info),
        _ => None,
    }
}

/// The motions, or the expressions, that a figure lists: a Live2D model
/// its own, any other figure none.
pub open spec fn figure_names(info: FigureData, expressions: bool) -> Seq<Seq<char>> {
    match info {
        FigureData::Live2d { motions, expressions: exprs } => names_view(
            if expressions {
                exprs@
            } else {
                motions@
            },
        ),
        _ => Seq::empty(),
    }
}

/// The diagnostics of a motion or expression argument: checked on every
/// figure when `every_figure`, else on Live2D models only.
pub open spec fn model_check(
    level: DiagnosticLevel,
    every_figure: bool,
    info: FigureData,
    arg: Seq<char>,
    value: Option<String>,
    expressions: bool,
    description: Seq<char>,
) -> Seq<DiagnosticView> {
    match value {
        Some(v) => if every_figure || info is Live2d {
            unless(
                figure_names(info, expressions).contains(v@),
                missing_at(level, LocationView::ArgumentValue(arg), description, v@),
            )
        } else {
            Seq::empty()
        },
        None => Seq::empty(),
    }
}

/// The byte offset of the first place where `p` occurs in `s`.
pub open spec fn occurs_at(s: Seq<char>, p: Seq<char>, k: int) -> bool {
    0 <= k && k + p.len() <= s.len() && s.subrange(k, k + p.len()) == p
}

/// The first character index from `k` on where `p` occurs in `s`.
pub open spec fn first_occurrence(s: Seq<char>, p: Seq<char>, k: int) -> Option<int>
    decreases s.len() + 1 - k,
{
    if k < 0 || k + p.len() > s.len() {
        None
    } else if occurs_at(s, p, k) {
        Some(k)
    } else {
        first_occurrence(s, p, k + 1)
    }
}

/// Where the diagnostic of a missing vocal points: at the first place the
/// line names it, else at the whole line.
pub open spec fn vocal_span(content: Seq<char>, vocal: Seq<char>) -> LocationView {
    match first_occurrence(content, vocal, 0) {
        Some(k) => LocationView::Span(
            utf8_len(content.take(k)) as usize,
            (utf8_len(content.take(k)) + utf8_len(vocal)) as usize,
        ),
        None => LocationView::Span(0, utf8_len(content) as usize),
    }
}

/// The diagnostics of the choice targets that are neither a scene nor a
/// label, from target `n` on.
pub open spec fn choose_checks(
    level: DiagnosticLevel,
    r: ProjectResources,
    targets: Seq<(String, usize, usize)>,
    n: int,
) -> Seq<DiagnosticView>
    decreases n,
{
    if n <= 0 {
        Seq::empty()
    } else {
        let (t, a, b) = targets[n - 1];
        choose_checks(level, r, targets, n - 1) + unless(
            lookup(r.scene@, t@) is Some || names_view(r.labels@).contains(t@),
            missing_at(level, LocationView::Span(a, b), "场景选项"@, t@),
        )
    }
}

/// The resource diagnostics of a statement on the line `content`, as a
/// service reports them.
pub open spec fn resource_diagnostics(content: Seq<char>, s: SentenceData, r: ProjectResources) -> Seq<
    DiagnosticView,
> {
    styled_diagnostics(ReportStyle::Service, content, s, r)
}

/// The resource diagnostics of a statement on the line `content`, reported
/// in `style`.
pub open spec fn styled_diagnostics(
    style: ReportStyle,
    content: Seq<char>,
    s: SentenceData,
    r: ProjectResources,
) -> Seq<DiagnosticView> {
    let lv = level_of(style);
    let standalone = style == ReportStyle::Standalone;
    match s {
        SentenceData::Say { vocal: Some(v), .. } => unless(
            holds(r.vocal, v@),
            missing_at(lv, vocal_span(content, v@), "语音"@, v@),
        ),
        SentenceData::ChangeBackground { background, enter, exit, .. } => (match background {
            Some(b) => if standalone && blank(b@) {
                Seq::empty()
            } else {
                content_check(lv, b@, r.background, "背景"@)
            },
            None => Seq::empty(),
        }) + animation_check(lv, r, "enter"@, enter) + animation_check(lv, r, "exit"@, exit),
        SentenceData::ChangeFigure {
            figure,
            mouth_open,
            mouth_half_open,
            mouth_close,
            eyes_open,
            eyes_close,
            motion,
            expression,
            enter,
            exit,
            ..
        } => {
            let parts = argument_check(lv, "mouthOpen"@, mouth_open, r.figure, "图片立绘"@)
                + argument_check(lv, "mouthHalfOpen"@, mouth_half_open, r.figure, "图片立绘"@)
                + argument_check(lv, "mouthClose"@, mouth_close, r.figure, "图片立绘"@)
                + argument_check(lv, "eyesOpen"@, eyes_open, r.figure, "图片立绘"@)
                + argument_check(lv, "eyesClose"@, eyes_close, r.figure, "图片立绘"@);
            let animations = animation_check(lv, r, "enter"@, enter) + animation_check(lv, r, "exit"@, exit);
            match figure {
                Some(f) => if standalone && blank(f@) {
                    parts + animations
                } else {
                    let found = if standalone {
                        figure_found(r, canon_or(f@))
                    } else {
                        figure_at(r, canon_or(f@))
                    };
                    match found {
                        None => parts + seq![missing_at(lv, LocationView::Content, "立绘"@, f@)],
                        Some(info) => parts + model_check(lv, standalone, info, "motion"@, motion, false, "立绘动作"@)
                            + model_check(lv, standalone, info, "expression"@, expression, true, "Live2D 表情"@)
                            + animations,
                    }
                },
                None => parts + animations,
            }
        },
        SentenceData::Bgm { bgm: Some(b), .. } => if standalone && blank(b@) {
            Seq::empty()
        } else {
            content_check(lv, b@, r.bgm, "音乐"@)
        },
        SentenceData::PlayVideo { video } => content_check(lv, video@, r.video, "视频"@),
        SentenceData::PlayEffect { vocal: Some(v), id } => if standalone && (blank(v@) || id is Some) {
            Seq::empty()
        } else {
            content_check(lv, v@, r.bgm, "语音 (音效)"@)
        },
        SentenceData::SetAnimation { animation, .. } => unless(
            has_animation(r, animation@),
            missing_at(lv, LocationView::Content, "动画"@, animation@),
        ),
        SentenceData::SetComplexAnimation { animation, .. } => unless(
            animation@ == "universalSoftIn"@ || animation@ == "universalSoftOut"@,
            missing_at(lv, LocationView::Content, "复杂动画"@, animation@),
        ),
        SentenceData::SetTransition { enter, exit, .. } => animation_check(lv, r, "enter"@, enter)
            + animation_check(lv, r, "exit"@, exit),
        SentenceData::Intro { background_image, .. } => argument_check(
            lv,
            "backgroundImage"@,
            background_image,
            r.background,
            "背景"@,
        ),
        SentenceData::MiniAvatar { avatar: Some(a) } => content_check(lv, a@, r.figure, "小头像"@),
        SentenceData::CallScene { scene } => content_check(lv, scene@, r.scene, "场景"@),
        SentenceData::ChangeScene { scene } => content_check(lv, scene@, r.scene, "场景"@),
        SentenceData::Choose { targets } => choose_checks(lv, r, targets@, targets@.len() as int),
        SentenceData::UnlockCg { image, .. } => content_check(lv, image@, r.background, "图片"@),
        SentenceData::UnlockBgm { bgm, .. } => content_check(lv, bgm@, r.bgm, "音乐"@),
        _ => Seq::empty(),
    }
}

/// The diagnostics of a statement that names one resource path: none when
/// `folder` holds the path (taken canonical), else one `WG007` at `span`
/// in the style's level saying that the `description` at the path is
/// missing.
pub open spec fn one_path_check<T>(
    style: ReportStyle,
    folder: Folder<T>,
    path: Seq<char>,
    span: LocationView,
    description: Seq<char>,
) -> Seq<DiagnosticView> {
    if lookup(folder@, canon_or(path)) is Some {
        Seq::empty()
    } else {
        seq![
            DiagnosticView {
                span,
                code: "WG007"@,
                level: level_of(style),
                message: "找不到或无法识别"@ + description + ": "@ + path,
            },
        ]
    }
}

/// Each kind of statement that names a resource path looks it up in the
/// folder of its kind, and in no other: a CG image and an intro's
/// background image among the backgrounds, unlocked and played music and
/// sound effects among the music, a video among the videos, a called or
/// changed-to scene among the scenes, a mini avatar among the figures, a
/// vocal among the vocals; an animation is `{name}.json` among the
/// animations.
pub proof fn law_resources_looked_up_in_their_folder(
    style: ReportStyle,
    content: Seq<char>,
    s: SentenceData,
    r: ProjectResources,
)
    ensures
        match s {
            SentenceData::UnlockCg { image, .. } => styled_diagnostics(style, content, s, r)
                == one_path_check(style, r.background, image@, LocationView::Content, "图片"@),
            SentenceData::UnlockBgm { bgm, .. } => styled_diagnostics(style, content, s, r)
                == one_path_check(style, r.bgm, bgm@, LocationView::Content, "音乐"@),
            SentenceData::PlayVideo { video } => styled_diagnostics(style, content, s, r)
                == one_path_check(style, r.video, video@, LocationView::Content, "视频"@),
            SentenceData::CallScene { scene } => styled_diagnostics(style, content, s, r)
                == one_path_check(style, r.scene, scene@, LocationView::Content, "场景"@),
            SentenceData::ChangeScene { scene } => styled_diagnostics(style, content, s, r)
                == one_path_check(style, r.scene, scene@, LocationView::Content, "场景"@),
            SentenceData::MiniAvatar { avatar: Some(a) } => styled_diagnostics(style, content, s, r)
                == one_path_check(style, r.figure, a@, LocationView::Content, "小头像"@),
            SentenceData::Say { vocal: Some(v), .. } => styled_diagnostics(style, content, s, r)
                == one_path_check(style, r.vocal, v@, vocal_span(content, v@), "语音"@),
            SentenceData::ChangeBackground { background: Some(b), enter: None, exit: None, .. } =>
                !(style == ReportStyle::Standalone && blank(b@)) ==> styled_diagnostics(style, content, s, r)
                == one_path_check(style, r.background, b@, LocationView::Content, "背景"@),
            SentenceData::Intro { background_image: Some(b), .. } => styled_diagnostics(style, content, s, r)
                == one_path_check(style, r.background, b@, LocationView::ArgumentValue("backgroundImage"@), "背景"@),
            SentenceData::Bgm { bgm: Some(b), .. } => !(style == ReportStyle::Standalone && blank(b@))
                ==> styled_diagnostics(style, content, s, r)
                == one_path_check(style, r.bgm, b@, LocationView::Content, "音乐"@),
            SentenceData::PlayEffect { vocal: Some(v), id } => style == ReportStyle::Service
                ==> styled_diagnostics(style, content, s, r)
                == one_path_check(style, r.bgm, v@, LocationView::Content, "语音 (音效)"@),
            SentenceData::SetAnimation { animation, .. } => styled_diagnostics(style, content, s, r)
                == if lookup(r.animation@, animation@ + ".json"@) is Some {
                Seq::empty()
            } else {
                seq![
                    DiagnosticView {
                        span: LocationView::Content,
                        code: "WG007"@,
                        level: level_of(style),
                        message: "找不到或无法识别动画: "@ + animation@,
                    },
                ]
            },
            _ => true,
        },
{
    reveal_strlit("找不到或无法识别");
    reveal_strlit(": ");
    reveal_strlit("找不到或无法识别动画: ");
    reveal_strlit("动画");
    assert("找不到或无法识别"@ + "动画"@ + ": "@ =~= "找不到或无法识别动画: "@);
    let got = styled_diagnostics(style, content, s, r);
    match s {
        SentenceData::UnlockCg { image, .. } => {
            assert(got =~= one_path_check(style, r.background, image@, LocationView::Content, "图片"@));
        },
        SentenceData::UnlockBgm { bgm, .. } => {
            assert(got =~= one_path_check(style, r.bgm, bgm@, LocationView::Content, "音乐"@));
        },
        SentenceData::PlayVideo { video } => {
            assert(got =~= one_path_check(style, r.video, video@, LocationView::Content, "视频"@));
        },
        SentenceData::CallScene { scene } => {
            assert(got =~= one_path_check(style, r.scene, scene@, LocationView::Content, "场景"@));
        },
        SentenceData::ChangeScene { scene } => {
            assert(got =~= one_path_check(style, r.scene, scene@, LocationView::Content, "场景"@));
        },
        SentenceData::MiniAvatar { avatar: Some(a) } => {
            assert(got =~= one_path_check(style, r.figure, a@, LocationView::Content, "小头像"@));
        },
        SentenceData::Say { vocal: Some(v), .. } => {
            assert(got =~= one_path_check(style, r.vocal, v@, vocal_span(content, v@), "语音"@));
        },
        SentenceData::ChangeBackground { background: Some(b), enter: None, exit: None, .. } => {
            if !(style == ReportStyle::Standalone && blank(b@)) {
                assert(got =~= one_path_check(style, r.background, b@, LocationView::Content, "背景"@));
            }
        },
        SentenceData::Intro { background_image: Some(b), .. } => {
            assert(got =~= one_path_check(style, r.background, b@, LocationView::ArgumentValue("backgroundImage"@), "背景"@));
        },
        SentenceData::Bgm { bgm: Some(b), .. } => {
            if !(style == ReportStyle::Standalone && blank(b@)) {
                assert(got =~= one_path_check(style, r.bgm, b@, LocationView::Content, "音乐"@));
            }
        },
        SentenceData::PlayEffect { vocal: Some(v), .. } => {
            if style == ReportStyle::Service {
                assert(got =~= one_path_check(style, r.bgm, v@, LocationView::Content, "语音 (音效)"@));
            }
        },
        SentenceData::SetAnimation { animation, .. } => {
            if lookup(r.animation@, animation@ + ".json"@) is None {
                assert(got =~= seq![
                    DiagnosticView {
                        span: LocationView::Content,
                        code: "WG007"@,
                        level: level_of(style),
                        message: "找不到或无法识别动画: "@ + animation@,
                    },
                ]);
            }
        },
        _ => {},
    }
}

/// Whether `f` holds something at `path`, taken canonical when it can be.
fn holds_path<T>(f: &Folder<T>, path: &str) -> (r: bool)
    requires
        f.wf(),
    ensures
        r == holds(*f, path@),
{
    match canonicalize(path) {
        Some(c) => f.contains(c.as_str()),
        None => f.contains(path),
    }
}

/// The diagnostic for a missing resource at `span`.
fn missing_diagnostic(level: DiagnosticLevel, span: DiagnosticLocation, description: &str, path: &str) -> (r: PrimaryDiagnostic)
    ensures
        r@ == missing_at(level, span@, description@, path@),
{
    let mut message = String::from_str("找不到或无法识别");
    message.append(description);
    message.append(": ");
    message.append(path);
    PrimaryDiagnostic { span, code: "WG007", level, message }
}

/// Appends the diagnostics of an optional path argument.
fn check_argument<T>(
    out: &mut Vec<PrimaryDiagnostic>,
    level: DiagnosticLevel,
    name: &'static str,
    path: &Option<String>,
    f: &Folder<T>,
    description: &'static str,
)
    requires
        f.wf(),
    ensures
        diagnostics_view(final(out)@) == diagnostics_view(old(out)@) + argument_check(
            level,
            name@,
            *path,
            *f,
            description@,
        ),
{
    let ghost before = diagnostics_view(out@);
    if let Some(p) = path {
        if !holds_path(f, p.as_str()) {
            out.push(missing_diagnostic(level, DiagnosticLocation::ArgumentValue(name), description, p.as_str()));
        }
    }
    assert(diagnostics_view(out@) =~= before + argument_check(level, name@, *path, *f, description@));
}

/// Appends the diagnostics of a content path.
fn check_content<T>(
    out: &mut Vec<PrimaryDiagnostic>,
    level: DiagnosticLevel,
    path: &str,
    f: &Folder<T>,
    description: &'static str,
)
    requires
        f.wf(),
    ensures
        diagnostics_view(final(out)@) == diagnostics_view(old(out)@) + content_check(
            level,
            path@,
            *f,
            description@,
        ),
{
    let ghost before = diagnostics_view(out@);
    if !holds_path(f, path) {
        out.push(missing_diagnostic(level, DiagnosticLocation::Content, description, path));
    }
    assert(diagnostics_view(out@) =~= before + content_check(level, path@, *f, description@));
}

/// Whether the animations folder holds `{name}.json`.
pub fn contains_animation(r: &ProjectResources, name: &str) -> (b: bool)
    requires
        r.wf(),
    ensures
        b == has_animation(*r, name@),
{
    let mut file = String::from_str(name);
    file.append(".json");
    r.animation.contains(file.as_str())
}

/// Appends the diagnostics of an optional animation argument.
fn check_animation(
    out: &mut Vec<PrimaryDiagnostic>,
    level: DiagnosticLevel,
    r: &ProjectResources,
    arg: &'static str,
    a: &Option<String>,
)
    requires
        r.wf(),
    ensures
        diagnostics_view(final(out)@) == diagnostics_view(old(out)@) + animation_check(level, *r, arg@, *a),
{
    let ghost before = diagnostics_view(out@);
    if let Some(x) = a {
        if !contains_animation(r, x.as_str()) {
            out.push(missing_diagnostic(level, DiagnosticLocation::ArgumentValue(arg), "动画", x.as_str()));
        }
    }
    assert(diagnostics_view(out@) =~= before + animation_check(level, *r, arg@, *a));
}

/// The figure at `path`, following one import (see `figure_at`).
pub fn get_figure<'a>(r: &'a ProjectResources, path: &str) -> (f: Option<&'a FigureData>)
    requires
        r.wf(),
    ensures
        match figure_at(*r, path@) {
            Some(info) => f == Some(&info),
            None => f is None,
        },
{
    match r.figure.get(path) {
        Some(Node::Item(info)) => match info {
            FigureData::Wmdl { import } => match r.figure.get(import.as_str()) {
                Some(Node::Item(i)) => Some(i),
                _ => None,
            },
            _ => Some(info),
        },
        _ => None,
    }
}

/// Whether `names` holds `name`.
fn has_name(names: &Vec<String>, name: &str) -> (b: bool)
    ensures
        b == names_view(names@).contains(name@),
{
    let mut i: usize = 0;
    while i < names.len()
        invariant
            i <= names@.len(),
            forall|j: int| 0 <= j < i ==> names@[j]@ != name@,
        decreases names@.len() - i,
    {
        if str_eq(names[i].as_str(), name) {
            assert(names_view(names@)[i as int] == name@);
            return true;
        }
        i += 1;
    }
    assert forall|j: int| 0 <= j < names_view(names@).len() implies names_view(names@)[j] != name@ by {
        assert(names_view(names@)[j] == names@[j]@);
    }
    false
}

/// The figure read as found at `path`, without following imports.
fn find_figure<'a>(r: &'a ProjectResources, path: &str) -> (f: Option<&'a FigureData>)
    requires
        r.wf(),
    ensures
        match figure_found(*r, path@) {
            Some(info) => f == Some(&info),
            None => f is None,
        },
{
    match r.figure.get(path) {
        Some(Node::Item(info)) => Some(info),
        _ => None,
    }
}

/// Appends the diagnostics of a motion or expression argument.
fn check_model(
    out: &mut Vec<PrimaryDiagnostic>,
    level: DiagnosticLevel,
    every_figure: bool,
    info: &FigureData,
    arg: &'static str,
    value: &Option<String>,
    expressions: bool,
    description: &'static str,
)
    ensures
        diagnostics_view(final(out)@) == diagnostics_view(old(out)@) + model_check(
            level,
            every_figure,
            *info,
            arg@,
            *value,
            expressions,
            description@,
        ),
{
    let ghost before = diagnostics_view(out@);
    if let Some(v) = value {
        let listed = match info {
            FigureData::Live2d { motions, expressions: exprs } => {
                let names = if expressions { exprs } else { motions };
                Some(has_name(names, v.as_str()))
            },
            _ => if every_figure {
                Some(false)
            } else {
                None
            },
        };
        if listed == Some(false) {
            out.push(missing_diagnostic(level, DiagnosticLocation::ArgumentValue(arg), description, v.as_str()));
        }
        proof {
            if !(info is Live2d) {
                assert(figure_names(*info, expressions) =~= Seq::<Seq<char>>::empty());
            }
        }
    }
    assert(diagnostics_view(out@) =~= before + model_check(level, every_figure, *info, arg@, *value, expressions, description@));
}

/// The byte offset of the first place where `p` occurs in `s`.
pub fn find_str(s: &str, p: &str) -> (r: Option<usize>)
    ensures
        match first_occurrence(s@, p@, 0) {
            Some(k) => r == Some(utf8_len(s@.take(k)) as usize),
            None => r is None,
        },
{
    let x = chars_of(s);
    let y = chars_of(p);
    let offsets = byte_offsets(s, &x);
    let n = x.len();
    let m = y.len();
    if m > n {
        return None;
    }
    let mut k: usize = 0;
    while k <= n - m
        invariant
            x@ == s@,
            y@ == p@,
            n == x@.len(),
            m == y@.len(),
            m <= n,
            k <= n - m + 1,
            offsets@.len() == n + 1,
            forall|j: int| 0 <= j <= n ==> offsets@[j] == utf8_len(#[trigger] s@.take(j)),
            first_occurrence(s@, p@, 0) == first_occurrence(s@, p@, k as int),
        decreases n - k,
    {
        let mut i: usize = 0;
        let mut same = true;
        while i < m && same
            invariant
                x@ == s@,
                y@ == p@,
                n == x@.len(),
                m == y@.len(),
                k + m <= n,
                i <= m,
                same ==> forall|j: int| 0 <= j < i ==> x@[k + j] == y@[j],
                !same ==> exists|j: int| 0 <= j < m && x@[k + j] != y@[j],
            decreases m - i + (if same { 1int } else { 0int }),
        {
            if x[k + i] != y[i] {
                same = false;
            } else {
                i += 1;
            }
        }
        if same {
            assert(s@.subrange(k as int, k + m) =~= p@);
            return Some(offsets[k]);
        }
        proof {
            let j = choose|j: int| 0 <= j < m && x@[k + j] != y@[j];
            assert(s@.subrange(k as int, k + m)[j] != p@[j]);
        }
        k += 1;
    }
    None
}

/// Appends the diagnostics of the choice targets.
fn check_choices(
    out: &mut Vec<PrimaryDiagnostic>,
    level: DiagnosticLevel,
    r: &ProjectResources,
    targets: &Vec<(String, usize, usize)>,
)
    requires
        r.wf(),
    ensures
        diagnostics_view(final(out)@) == diagnostics_view(old(out)@) + choose_checks(
            level,
            *r,
            targets@,
            targets@.len() as int,
        ),
{
    let ghost start = diagnostics_view(out@);
    let mut i: usize = 0;
    while i < targets.len()
        invariant
            r.wf(),
            i <= targets@.len(),
            diagnostics_view(out@) == start + choose_checks(level, *r, targets@, i as int),
        decreases targets@.len() - i,
    {
        let (t, a, b) = &targets[i];
        let ghost before = diagnostics_view(out@);
        if !r.scene.contains(t.as_str()) && !has_name(&r.labels, t.as_str()) {
            out.push(missing_diagnostic(level, DiagnosticLocation::Span(*a, *b), "场景选项", t.as_str()));
        }
        assert(diagnostics_view(out@) =~= before + unless(
            lookup(r.scene@, t@) is Some || names_view(r.labels@).contains(t@),
            missing_at(level, LocationView::Span(*a, *b), "场景选项"@, t@),
        ));
        i += 1;
    }
}


/// Whether a path names nothing: empty, or `none`.
fn is_blank(p: &str) -> (b: bool)
    ensures
        b == blank(p@),
{
    proof {
        reveal_strlit("");
        reveal_strlit("none");
        assert(""@ =~= Seq::<char>::empty());
        assert("none"@ =~= seq!['n', 'o', 'n', 'e']);
        if p@.len() == 0 {
            assert(p@ =~= ""@);
        }
    }
    str_eq(p, "") || str_eq(p, "none")
}

/// The resource diagnostics of the statement `sentence` on the line
/// `content`, reported in `style` (see `styled_diagnostics`).
pub fn diagnose_styled(
    style: ReportStyle,
    content: &str,
    sentence: &SentenceData,
    resources: &ProjectResources,
) -> (r: Vec<PrimaryDiagnostic>)
    requires
        resources.wf(),
    ensures
        diagnostics_view(r@) == styled_diagnostics(style, content@, *sentence, *resources),
{
    let res = resources;
    let standalone = style == ReportStyle::Standalone;
    let lv = match style {
        ReportStyle::Service => DiagnosticLevel::Error,
        ReportStyle::Standalone => DiagnosticLevel::Warning,
    };
    let mut out: Vec<PrimaryDiagnostic> = Vec::new();
    assert(diagnostics_view(out@) =~= Seq::<DiagnosticView>::empty());
    match sentence {
        SentenceData::Say { vocal: Some(v), .. } => {
            if !holds_path(&res.vocal, v.as_str()) {
                let total = crate::text::byte_len(content);
                let span = match find_str(content, v.as_str()) {
                    Some(index) => {
                        proof {
                            let k = first_occurrence(content@, v@, 0)->0;
                            lemma_first_occurrence(content@, v@, 0);
                            lemma_occurrence_bytes(content@, v@, k);
                        }
                        DiagnosticLocation::Span(index, index + crate::text::byte_len(v.as_str()))
                    },
                    None => DiagnosticLocation::Span(0, total),
                };
                out.push(missing_diagnostic(lv, span, "语音", v.as_str()));
            }
        },
        SentenceData::ChangeBackground { background, enter, exit, .. } => {
            if let Some(b) = background {
                if !(standalone && is_blank(b.as_str())) {
                    check_content(&mut out, lv, b.as_str(), &res.background, "背景");
                }
            }
            assert(diagnostics_view(out@) =~= (match *background {
                Some(b) => if standalone && blank(b@) {
                    Seq::empty()
                } else {
                    content_check(lv, b@, res.background, "背景"@)
                },
                None => Seq::empty(),
            }));
            check_animation(&mut out, lv, res, "enter", enter);
            check_animation(&mut out, lv, res, "exit", exit);
        },
        SentenceData::ChangeFigure {
            figure,
            mouth_open,
            mouth_half_open,
            mouth_close,
            eyes_open,
            eyes_close,
            motion,
            expression,
            enter,
            exit,
            ..
        } => {
            check_argument(&mut out, lv, "mouthOpen", mouth_open, &res.figure, "图片立绘");
            check_argument(&mut out, lv, "mouthHalfOpen", mouth_half_open, &res.figure, "图片立绘");
            check_argument(&mut out, lv, "mouthClose", mouth_close, &res.figure, "图片立绘");
            check_argument(&mut out, lv, "eyesOpen", eyes_open, &res.figure, "图片立绘");
            check_argument(&mut out, lv, "eyesClose", eyes_close, &res.figure, "图片立绘");
            if let Some(f) = figure {
                if !(standalone && is_blank(f.as_str())) {
                    let canon = canonicalize(f.as_str());
                    let path = match &canon {
                        Some(c) => c.as_str(),
                        None => f.as_str(),
                    };
                    let found = if standalone {
                        find_figure(res, path)
                    } else {
                        get_figure(res, path)
                    };
                    match found {
                        None => {
                            out.push(missing_diagnostic(lv, DiagnosticLocation::Content, "立绘", f.as_str()));
                            return out;
                        },
                        Some(info) => {
                            check_model(&mut out, lv, standalone, info, "motion", motion, false, "立绘动作");
                            check_model(&mut out, lv, standalone, info, "expression", expression, true, "Live2D 表情");
                        },
                    }
                }
            }
            check_animation(&mut out, lv, res, "enter", enter);
            check_animation(&mut out, lv, res, "exit", exit);
        },
        SentenceData::Bgm { bgm: Some(b), .. } => {
            if !(standalone && is_blank(b.as_str())) {
                check_content(&mut out, lv, b.as_str(), &res.bgm, "音乐");
            }
        },
        SentenceData::PlayVideo { video } => check_content(&mut out, lv, video.as_str(), &res.video, "视频"),
        SentenceData::PlayEffect { vocal: Some(v), id } => {
            if !(standalone && (is_blank(v.as_str()) || id.is_some())) {
                check_content(&mut out, lv, v.as_str(), &res.bgm, "语音 (音效)");
            }
        },
        SentenceData::SetAnimation { animation, .. } => {
            if !contains_animation(res, animation.as_str()) {
                out.push(missing_diagnostic(lv, DiagnosticLocation::Content, "动画", animation.as_str()));
            }
        },
        SentenceData::SetComplexAnimation { animation, .. } => {
            if !(str_eq(animation.as_str(), "universalSoftIn") || str_eq(animation.as_str(), "universalSoftOut")) {
                out.push(missing_diagnostic(lv, DiagnosticLocation::Content, "复杂动画", animation.as_str()));
            }
        },
        SentenceData::SetTransition { enter, exit, .. } => {
            check_animation(&mut out, lv, res, "enter", enter);
            check_animation(&mut out, lv, res, "exit", exit);
        },
        SentenceData::Intro { background_image, .. } => check_argument(
            &mut out,
            lv,
            "backgroundImage",
            background_image,
            &res.background,
            "背景",
        ),
        SentenceData::MiniAvatar { avatar: Some(a) } => check_content(&mut out, lv, a.as_str(), &res.figure, "小头像"),
        SentenceData::CallScene { scene } => check_content(&mut out, lv, scene.as_str(), &res.scene, "场景"),
        SentenceData::ChangeScene { scene } => check_content(&mut out, lv, scene.as_str(), &res.scene, "场景"),
        SentenceData::Choose { targets } => check_choices(&mut out, lv, res, targets),
        SentenceData::UnlockCg { image, .. } => check_content(&mut out, lv, image.as_str(), &res.background, "图片"),
        SentenceData::UnlockBgm { bgm, .. } => check_content(&mut out, lv, bgm.as_str(), &res.bgm, "音乐"),
        _ => {},
    }
    assert(diagnostics_view(out@) =~= styled_diagnostics(style, content@, *sentence, *resources));
    out
}

/// The resource diagnostics of the statement `sentence` on the line
/// `content`, as a service reports them (see `resource_diagnostics`).
pub fn diagnose_resource(content: &str, sentence: &SentenceData, resources: &ProjectResources) -> (r: Vec<
    PrimaryDiagnostic,
>)
    requires
        resources.wf(),
    ensures
        diagnostics_view(r@) == resource_diagnostics(content@, *sentence, *resources),
{
    diagnose_styled(ReportStyle::Service, content, sentence, resources)
}

/// The environment diagnostics of a statement: its resource diagnostics.
pub fn diagnose_environment(content: &str, sentence: &SentenceData, resources: &ProjectResources) -> (r: Vec<
    PrimaryDiagnostic,
>)
    requires
        resources.wf(),
    ensures
        diagnostics_view(r@) == resource_diagnostics(content@, *sentence, *resources),
{
    diagnose_resource(content, sentence, resources)
}

/// The first occurrence found is an occurrence.
proof fn lemma_first_occurrence(s: Seq<char>, p: Seq<char>, k: int)
    ensures
        first_occurrence(s, p, k) matches Some(j) ==> occurs_at(s, p, j),
    decreases s.len() + 1 - k,
{
    if k >= 0 && k + p.len() <= s.len() && !occurs_at(s, p, k) {
        lemma_first_occurrence(s, p, k + 1);
    }
}

/// Where a pattern occurs, its bytes fit within the text.
proof fn lemma_occurrence_bytes(s: Seq<char>, p: Seq<char>, k: int)
    requires
        occurs_at(s, p, k),
    ensures
        utf8_len(s.take(k)) + utf8_len(p) <= utf8_len(s),
{
    assert(s.take(k + p.len()) =~= s.take(k) + p) by {
        assert(s.subrange(k, k + p.len()) == p);
    }
    crate::text::lemma_len_concat(s.take(k), p);
    crate::text::lemma_len_take_mono(s, k + p.len(), s.len() as int);
    assert(s.take(s.len() as int) =~= s);
}

} // verus!
