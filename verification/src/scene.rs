//! The statements of a scene as the language services read them, and the
//! identifiers a statement names: stage object ids, speakers, labels,
//! series and durations.

use vstd::prelude::*;
use crate::scene_highlight::Sentence;

verus! {

/// A parsed statement of a scene line, with the arguments that the
/// services read: resource paths, animations, identifiers and durations.
/// An identifier that the statement derives from a figure or a target is
/// held as that id. Kinds that name none of these are `Other`.
#[derive(Debug, Clone)]
pub enum SentenceData {
    Say { speaker: Option<String>, figure_id: Option<String>, vocal: Option<String> },
    ChangeBackground {
        background: Option<String>,
        enter: Option<String>,
        exit: Option<String>,
        series: Option<String>,
        duration: Option<u32>,
        enter_duration: Option<u32>,
        exit_duration: Option<u32>,
    },
    ChangeFigure {
        figure: Option<String>,
        id: Option<String>,
        mouth_open: Option<String>,
        mouth_half_open: Option<String>,
        mouth_close: Option<String>,
        eyes_open: Option<String>,
        eyes_close: Option<String>,
        motion: Option<String>,
        expression: Option<String>,
        enter: Option<String>,
        exit: Option<String>,
        duration: Option<u32>,
        enter_duration: Option<u32>,
        exit_duration: Option<u32>,
    },
    Bgm { bgm: Option<String>, enter: Option<u32>, series: Option<String> },
    PlayVideo { video: String },
    PlayEffect { vocal: Option<String>, id: Option<String> },
    SetAnimation { animation: String, target_id: Option<String> },
    SetComplexAnimation { animation: String, target_id: Option<String>, duration: Option<u32> },
    SetTransform { target_id: Option<String>, duration: Option<u32> },
    SetTempAnimation { target_id: Option<String> },
    SetTransition { enter: Option<String>, exit: Option<String>, target_id: Option<String> },
    Intro { background_image: Option<String>, delay: Option<u32> },
    MiniAvatar { avatar: Option<String> },
    CallScene { scene: String },
    ChangeScene { scene: String },
    /// The targets of the choices, trimmed, each with its byte span in the
    /// line.
    Choose { targets: Vec<(String, usize, usize)> },
    Label { label: String },
    JumpLabel { label: String },
    UnlockCg { image: String, series: Option<String> },
    UnlockBgm { bgm: String, series: Option<String> },
    Wait { duration: u32 },
    Other(Sentence),
}

/// An identifier that a statement names.
#[derive(Debug, Clone, PartialEq, Eq)]
pub enum IdentRef {
    Id(String),
    Speaker(String),
    Label(String),
    Series(String),
    Duration(u32),
}

/// An identifier as plain values.
pub enum IdentView {
    Id(Seq<char>),
    Speaker(Seq<char>),
    Label(Seq<char>),
    Series(Seq<char>),
    Duration(u32),
}

impl View for IdentRef {
    type V = IdentView;

    open spec fn view(&self) -> IdentView {
        match self {
            IdentRef::Id(s) => IdentView::Id(s@),
            IdentRef::Speaker(s) => IdentView::Speaker(s@),
            IdentRef::Label(s) => IdentView::Label(s@),
            IdentRef::Series(s) => IdentView::Series(s@),
            IdentRef::Duration(d) => IdentView::Duration(*d),
        }
    }
}

/// The views of a list of identifiers.
pub open spec fn idents_view(v: Seq<IdentRef>) -> Seq<IdentView> {
    v.map_values(|i: IdentRef| i@)
}

/// The identifier `f` makes of a present string, or nothing.
pub open spec fn opt_ident(o: Option<String>, f: spec_fn(Seq<char>) -> IdentView) -> Seq<IdentView> {
    match o {
        Some(s) => seq![f(s@)],
        None => Seq::empty(),
    }
}

/// A present duration, or nothing.
pub open spec fn opt_duration(o: Option<u32>) -> Seq<IdentView> {
    match o {
        Some(d) => seq![IdentView::Duration(d)],
        None => Seq::empty(),
    }
}

/// The identifiers that a statement names, in the order it names them.
pub open spec fn idents_spec(s: SentenceData) -> Seq<IdentView> {
    let id = |x: Seq<char>| IdentView::Id(x);
    let series = |x: Seq<char>| IdentView::Series(x);
    match s {
        SentenceData::Say { speaker, figure_id, .. } => opt_ident(
            speaker,
            |x: Seq<char>| IdentView::Speaker(x),
        ) + opt_ident(figure_id, id),
        SentenceData::ChangeBackground { series: se, duration, enter_duration, exit_duration, .. } =>
            opt_ident(se, series) + opt_duration(duration) + opt_duration(enter_duration)
            + opt_duration(exit_duration),
        SentenceData::ChangeFigure { id: i, duration, enter_duration, exit_duration, .. } => opt_ident(
            i,
            id,
        ) + opt_duration(duration) + opt_duration(enter_duration) + opt_duration(exit_duration),
        SentenceData::Bgm { enter, series: se, .. } => opt_duration(enter) + opt_ident(se, series),
        SentenceData::PlayEffect { id: i, .. } => opt_ident(i, id),
        SentenceData::SetAnimation { target_id, .. } => opt_ident(target_id, id),
        SentenceData::SetTempAnimation { target_id } => opt_ident(target_id, id),
        SentenceData::SetTransition { target_id, .. } => opt_ident(target_id, id),
        SentenceData::SetComplexAnimation { target_id, duration, .. } => opt_ident(target_id, id)
            + opt_duration(duration),
        SentenceData::SetTransform { target_id, duration } => opt_ident(target_id, id)
            + opt_duration(duration),
        SentenceData::Intro { delay, .. } => opt_duration(delay),
        SentenceData::Label { label } => seq![IdentView::Label(label@)],
        SentenceData::JumpLabel { label } => seq![IdentView::Label(label@)],
        SentenceData::UnlockCg { series: se, .. } => opt_ident(se, series),
        SentenceData::UnlockBgm { series: se, .. } => opt_ident(se, series),
        SentenceData::Wait { duration } => seq![IdentView::Duration(duration)],
        _ => Seq::empty(),
    }
}

/// Appends the id in `o`, when there is one.
fn push_id(out: &mut Vec<IdentRef>, o: &Option<String>)
    ensures
        idents_view(final(out)@) == idents_view(old(out)@) + opt_ident(
            *o,
            |x: Seq<char>| IdentView::Id(x),
        ),
{
    let ghost before = idents_view(out@);
    if let Some(s) = o {
        out.push(IdentRef::Id(s.clone()));
    }
    assert(idents_view(out@) =~= before + opt_ident(*o, |x: Seq<char>| IdentView::Id(x)));
}

/// Appends the series in `o`, when there is one.
fn push_series(out: &mut Vec<IdentRef>, o: &Option<String>)
    ensures
        idents_view(final(out)@) == idents_view(old(out)@) + opt_ident(
            *o,
            |x: Seq<char>| IdentView::Series(x),
        ),
{
    let ghost before = idents_view(out@);
    if let Some(s) = o {
        out.push(IdentRef::Series(s.clone()));
    }
    assert(idents_view(out@) =~= before + opt_ident(*o, |x: Seq<char>| IdentView::Series(x)));
}

/// Appends the speaker in `o`, when there is one.
fn push_speaker(out: &mut Vec<IdentRef>, o: &Option<String>)
    ensures
        idents_view(final(out)@) == idents_view(old(out)@) + opt_ident(
            *o,
            |x: Seq<char>| IdentView::Speaker(x),
        ),
{
    let ghost before = idents_view(out@);
    if let Some(s) = o {
        out.push(IdentRef::Speaker(s.clone()));
    }
    assert(idents_view(out@) =~= before + opt_ident(*o, |x: Seq<char>| IdentView::Speaker(x)));
}

/// Appends the duration in `o`, when there is one.
fn push_duration(out: &mut Vec<IdentRef>, o: Option<u32>)
    ensures
        idents_view(final(out)@) == idents_view(old(out)@) + opt_duration(o),
{
    let ghost before = idents_view(out@);
    if let Some(d) = o {
        out.push(IdentRef::Duration(d));
    }
    assert(idents_view(out@) =~= before + opt_duration(o));
}

/// The identifiers that a statement names (see `idents_spec`).
pub fn idents_of(sentence: &SentenceData) -> (r: Vec<IdentRef>)
    ensures
        idents_view(r@) == idents_spec(*sentence),
{
    let mut out: Vec<IdentRef> = Vec::new();
    let ghost e = idents_view(out@);
    assert(e =~= Seq::<IdentView>::empty());
    match sentence {
        SentenceData::Say { speaker, figure_id, .. } => {
            push_speaker(&mut out, speaker);
            push_id(&mut out, figure_id);
        },
        SentenceData::ChangeBackground { series, duration, enter_duration, exit_duration, .. } => {
            push_series(&mut out, series);
            push_duration(&mut out, *duration);
            push_duration(&mut out, *enter_duration);
            push_duration(&mut out, *exit_duration);
        },
        SentenceData::ChangeFigure { id, duration, enter_duration, exit_duration, .. } => {
            push_id(&mut out, id);
            push_duration(&mut out, *duration);
            push_duration(&mut out, *enter_duration);
            push_duration(&mut out, *exit_duration);
        },
        SentenceData::Bgm { enter, series, .. } => {
            push_duration(&mut out, *enter);
            push_series(&mut out, series);
        },
        SentenceData::PlayEffect { id, .. } => push_id(&mut out, id),
        SentenceData::SetAnimation { target_id, .. } => push_id(&mut out, target_id),
        SentenceData::SetTempAnimation { target_id } => push_id(&mut out, target_id),
        SentenceData::SetTransition { target_id, .. } => push_id(&mut out, target_id),
        SentenceData::SetComplexAnimation { target_id, duration, .. } => {
            push_id(&mut out, target_id);
            push_duration(&mut out, *duration);
        },
        SentenceData::SetTransform { target_id, duration } => {
            push_id(&mut out, target_id);
            push_duration(&mut out, *duration);
        },
        SentenceData::Intro { delay, .. } => push_duration(&mut out, *delay),
        SentenceData::Label { label } => out.push(IdentRef::Label(label.clone())),
        SentenceData::JumpLabel { label } => out.push(IdentRef::Label(label.clone())),
        SentenceData::UnlockCg { series, .. } => push_series(&mut out, series),
        SentenceData::UnlockBgm { series, .. } => push_series(&mut out, series),
        SentenceData::Wait { duration } => out.push(IdentRef::Duration(*duration)),
        _ => {},
    }
    assert(idents_view(out@) =~= idents_spec(*sentence));
    out
}

/// A label statement and a jump to a label name exactly that label: the
/// label a scene defines is collected as the labels it jumps to are.
pub proof fn law_labels_name_their_label(label: String)
    ensures
        idents_spec(SentenceData::Label { label }) == seq![IdentView::Label(label@)],
        idents_spec(SentenceData::JumpLabel { label }) == seq![IdentView::Label(label@)],
{
}

/// A line of dialogue names its speaker and then the figure it speaks
/// for; a wait names its duration; a figure or effect names its id first.
pub proof fn law_statements_name_their_fields(s: SentenceData)
    ensures
        match s {
            SentenceData::Say { speaker, figure_id, .. } => idents_spec(s) == (match speaker {
                Some(x) => seq![IdentView::Speaker(x@)],
                None => Seq::empty(),
            }) + (match figure_id {
                Some(x) => seq![IdentView::Id(x@)],
                None => Seq::empty(),
            }),
            SentenceData::Wait { duration } => idents_spec(s) == seq![IdentView::Duration(duration)],
            SentenceData::ChangeFigure { id: Some(x), .. } => idents_spec(s).len() > 0
                && idents_spec(s)[0] == IdentView::Id(x@),
            SentenceData::PlayEffect { id, .. } => idents_spec(s) == (match id {
                Some(x) => seq![IdentView::Id(x@)],
                None => Seq::empty(),
            }),
            _ => true,
        },
{
    match s {
        SentenceData::Say { speaker, figure_id, .. } => {
            assert(idents_spec(s) =~= (match speaker {
                Some(x) => seq![IdentView::Speaker(x@)],
                None => Seq::empty(),
            }) + (match figure_id {
                Some(x) => seq![IdentView::Id(x@)],
                None => Seq::empty(),
            }));
        },
        SentenceData::PlayEffect { id, .. } => {
            assert(idents_spec(s) =~= (match id {
                Some(x) => seq![IdentView::Id(x@)],
                None => Seq::empty(),
            }));
        },
        _ => {},
    }
}

} // verus!
