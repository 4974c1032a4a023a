//! Whole diagnostic reports: which groups a runtime error, a list of
//! compiler warnings or a diagnostic over several sources is rendered
//! as (titles, snippets, annotations, hints, help), how the rendered
//! groups are joined, and where the traceback goes.  The drawing of each
//! report is `annotate-snippets`' work.
use vstd::prelude::*;
use annotate_snippets::{AnnotationKind, Group, Level, Renderer, Snippet};
use vstd::utf8::{decode_utf8, decode_utf8_encode_utf8, encode_utf8, is_char_boundary, valid_utf8};
use vstd::string::StringSliceAdditionalSpecFns;
use crate::diagnostic::{
    annotation_label, annotation_span, context_annotations, context_spec, format_traceback,
    label_spec, primary_span, primary_span_spec, span_spec, traceback_text, FrameInfo,
    RenderStyle, SourceLoc, Severity, indices_of, warning_order_spec, warning_order, secondary_spec,
    secondary_annotations, annotation_views, Annotation,
};
use crate::load_chunk::utf8_string;
use crate::config::{insert_name, lemma_name_order, name_less, strictly_sorted, views};

verus! {

/// The level of a group's title.  A help title is a secondary title; the
/// others are primary titles.
#[derive(Debug, Clone, Copy, PartialEq, Eq, Structural)]
pub enum ReportLevel {
    Error,
    Warning,
    Note,
    Help,
}

/// An annotation as plain data: its byte span in the snippet's source,
/// its label, and whether it is the primary one (else context).
pub struct AnnotationView {
    pub start: int,
    pub end: int,
    pub label: Seq<char>,
    pub primary: bool,
}

/// A snippet as plain data: the source text, the path shown, and the
/// annotations in order.
pub struct SnippetView {
    pub source: Seq<char>,
    pub path: Seq<char>,
    pub annotations: Seq<AnnotationView>,
}

/// A group as plain data: title level and text, the optional id shown
/// beside the level, and the snippets in order.
pub struct GroupView {
    pub level: ReportLevel,
    pub title: Seq<char>,
    pub id: Option<Seq<char>>,
    pub snippets: Seq<SnippetView>,
}

/// An annotation of a snippet.
#[derive(Debug)]
pub struct ReportAnnotation {
    pub start: usize,
    pub end: usize,
    pub label: String,
    pub primary: bool,
}

/// A snippet of source with its annotations.
#[derive(Debug)]
pub struct ReportSnippet {
    pub source: String,
    pub path: String,
    pub annotations: Vec<ReportAnnotation>,
}

/// A titled group of a report.
#[derive(Debug)]
pub struct ReportGroup {
    pub level: ReportLevel,
    pub title: String,
    pub id: Option<String>,
    pub snippets: Vec<ReportSnippet>,
}

/// An annotation as plain data.
pub open spec fn annotation_view(a: ReportAnnotation) -> AnnotationView {
    AnnotationView { start: a.start as int, end: a.end as int, label: a.label@, primary: a.primary }
}

/// A snippet as plain data.
pub open spec fn snippet_view(s: ReportSnippet) -> SnippetView {
    SnippetView {
        source: s.source@,
        path: s.path@,
        annotations: s.annotations@.map_values(|a: ReportAnnotation| annotation_view(a)),
    }
}

/// A group as plain data.
pub open spec fn group_view(g: ReportGroup) -> GroupView {
    GroupView {
        level: g.level,
        title: g.title@,
        id: match g.id {
            Some(i) => Some(i@),
            None => None,
        },
        snippets: g.snippets@.map_values(|s: ReportSnippet| snippet_view(s)),
    }
}

/// The groups as plain data.
pub open spec fn groups_view(gs: Seq<ReportGroup>) -> Seq<GroupView> {
    gs.map_values(|g: ReportGroup| group_view(g))
}

/// Does the span lie in the bytes `b`, in order and on character
/// boundaries?
pub open spec fn span_fits(b: Seq<u8>, start: int, end: int) -> bool {
    0 <= start <= end <= b.len() && is_char_boundary(b, start) && is_char_boundary(b, end)
}

/// Does every annotation of the snippet fit its source?
pub open spec fn snippet_fits(sn: SnippetView) -> bool {
    forall|k: int|
        0 <= k < sn.annotations.len() ==> span_fits(
            encode_utf8(sn.source),
            #[trigger] sn.annotations[k].start,
            sn.annotations[k].end,
        )
}

/// Does every annotation of every snippet fit its source?
pub open spec fn groups_fit(gs: Seq<GroupView>) -> bool {
    forall|i: int, j: int| 0 <= i < gs.len() && 0 <= j < gs[i].snippets.len() ==> snippet_fits(#[trigger] gs[i].snippets[j])
}

/// Does every annotation of the snippet fit its source?
fn snippet_fits_exec(sn: &ReportSnippet) -> (r: bool)
    ensures
        r == snippet_fits(snippet_view(*sn)),
{
    let text = sn.source.as_str();
    let n = sn.annotations.len();
    let ghost v = snippet_view(*sn);
    let mut k: usize = 0;
    while k < n
        invariant
            n == sn.annotations@.len(),
            v == snippet_view(*sn),
            text.spec_bytes() == encode_utf8(v.source),
            k <= n,
            forall|m: int| 0 <= m < k ==> span_fits(encode_utf8(v.source), #[trigger] v.annotations[m].start, v.annotations[m].end),
        decreases n - k,
    {
        let a = &sn.annotations[k];
        assert(v.annotations[k as int] == annotation_view(*a));
        let l = text.as_bytes().len();
        if !(a.start <= a.end && a.end <= l && text.is_char_boundary(a.start) && text.is_char_boundary(a.end)) {
            assert(!span_fits(encode_utf8(v.source), v.annotations[k as int].start, v.annotations[k as int].end));
            return false;
        }
        k = k + 1;
    }
    true
}

/// Does every annotation of every snippet fit its source?
fn groups_fit_exec(groups: &[ReportGroup]) -> (r: bool)
    ensures
        r == groups_fit(groups_view(groups@)),
{
    let ghost gv = groups_view(groups@);
    let n = groups.len();
    let mut i: usize = 0;
    while i < n
        invariant
            n == groups@.len(),
            gv == groups_view(groups@),
            i <= n,
            forall|p: int, j: int| 0 <= p < i && 0 <= j < gv[p].snippets.len() ==> snippet_fits(#[trigger] gv[p].snippets[j]),
        decreases n - i,
    {
        let g = &groups[i];
        let m = g.snippets.len();
        let mut j: usize = 0;
        while j < m
            invariant
                n == groups@.len(),
                gv == groups_view(groups@),
                i < n,
                *g == groups@[i as int],
                m == g.snippets@.len(),
                j <= m,
                forall|p: int, q: int| 0 <= p < i && 0 <= q < gv[p].snippets.len() ==> snippet_fits(#[trigger] gv[p].snippets[q]),
                forall|q: int| 0 <= q < j ==> snippet_fits(#[trigger] gv[i as int].snippets[q]),
            decreases m - j,
        {
            assert(gv[i as int].snippets[j as int] == snippet_view(g.snippets@[j as int]));
            if !snippet_fits_exec(&g.snippets[j]) {
                return false;
            }
            j = j + 1;
        }
        i = i + 1;
    }
    true
}

/// The text that `annotate-snippets` renders for the groups in the style.
pub uninterp spec fn rendered_groups(groups: Seq<GroupView>, colored: bool) -> Seq<char>;

/// Is the style the colored one?
pub open spec fn is_colored(style: RenderStyle) -> bool {
    style == RenderStyle::Colored
}

/// The snippets as plain data.
pub open spec fn snippets_view(v: Seq<ReportSnippet>) -> Seq<SnippetView> {
    v.map_values(|s: ReportSnippet| snippet_view(s))
}

/// `annotate_snippets::Renderer::render` (styled when `colored`, else
/// plain) on one help group: a `secondary_title` of `Level::HELP` with the
/// snippets, each with its path and its primary or context annotations.
/// The result is named: it is a function of the groups and the style.
#[verifier::external_body]
fn render_help(title: &String, snippets: &[ReportSnippet], colored: bool) -> (r: String)
    requires
        groups_fit(seq![GroupView { level: ReportLevel::Help, title: title@, id: None, snippets: snippets_view(snippets@) }]),
    ensures
        r@ == rendered_groups(
            seq![GroupView { level: ReportLevel::Help, title: title@, id: None, snippets: snippets_view(snippets@) }],
            colored,
        ),
{
    let g = Group::with_title(Level::HELP.secondary_title(title)).elements(snippets.iter().map(|s| Snippet::source(&s.source)
        .path(&s.path).annotations(s.annotations.iter().map(|a| if a.primary { AnnotationKind::Primary }
            else { AnnotationKind::Context }.span(a.start..a.end).label(&a.label)))));
    (if colored { Renderer::styled() } else { Renderer::plain() }).render(&[g])
}

/// `annotate_snippets::Renderer::render` on an error group (a
/// `primary_title` of `Level::ERROR`, no id) with its snippets, followed
/// by a help group titled `help` where there is one.
#[verifier::external_body]
fn render_error(title: &String, snippets: &[ReportSnippet], help: &Option<String>, colored: bool) -> (r: String)
    requires
        groups_fit(seq![GroupView { level: ReportLevel::Error, title: title@, id: None, snippets: snippets_view(snippets@) }]),
    ensures
        r@ == rendered_groups(
            seq![GroupView { level: ReportLevel::Error, title: title@, id: None, snippets: snippets_view(snippets@) }]
                + help_groups(*help),
            colored,
        ),
{
    let g = Group::with_title(Level::ERROR.primary_title(title)).elements(snippets.iter().map(|s| Snippet::source(&s.source)
        .path(&s.path).annotations(s.annotations.iter().map(|a| if a.primary { AnnotationKind::Primary }
            else { AnnotationKind::Context }.span(a.start..a.end).label(&a.label)))));
    let mut gs = vec![g];
    gs.extend(help.iter().map(|h| Group::with_title(Level::HELP.secondary_title(h))));
    (if colored { Renderer::styled() } else { Renderer::plain() }).render(&gs)
}

/// `annotate_snippets::Renderer::render` on a lint group (a
/// `primary_title` of `Level::ERROR`, `Level::WARNING` or `Level::NOTE`,
/// with the lint's id) with its snippets, followed by a help group titled
/// `help` where there is one.
#[verifier::external_body]
fn render_lint(level: ReportLevel, title: &String, id: &String, snippets: &[ReportSnippet], help: &Option<String>, colored: bool) -> (r: String)
    requires
        level != ReportLevel::Help,
        groups_fit(seq![GroupView { level, title: title@, id: Some(id@), snippets: snippets_view(snippets@) }]),
    ensures
        r@ == rendered_groups(
            seq![GroupView { level, title: title@, id: Some(id@), snippets: snippets_view(snippets@) }] + help_groups(*help),
            colored,
        ),
{
    let g = Group::with_title(match level { ReportLevel::Error => Level::ERROR, ReportLevel::Warning => Level::WARNING,
        _ => Level::NOTE }.primary_title(title).id(id)).elements(snippets.iter().map(|s| Snippet::source(&s.source)
        .path(&s.path).annotations(s.annotations.iter().map(|a| if a.primary { AnnotationKind::Primary }
            else { AnnotationKind::Context }.span(a.start..a.end).label(&a.label)))));
    let mut gs = vec![g];
    gs.extend(help.iter().map(|h| Group::with_title(Level::HELP.secondary_title(h))));
    (if colored { Renderer::styled() } else { Renderer::plain() }).render(&gs)
}

/// The shapes of report that are rendered: a help group alone, or an
/// error or lint group followed by at most one help group without
/// snippets.
pub open spec fn report_shape(gs: Seq<GroupView>) -> bool {
    &&& 1 <= gs.len() <= 2
    &&& gs[0].level == ReportLevel::Help ==> gs.len() == 1 && gs[0].id is None
    &&& gs.len() == 2 ==> gs[1].level == ReportLevel::Help && gs[1].id is None && gs[1].snippets.len() == 0
    &&& gs[0].id is None ==> gs[0].level == ReportLevel::Help || gs[0].level == ReportLevel::Error
}

/// Render the groups of a report in the style.
fn render_groups(groups: &[ReportGroup], style: RenderStyle) -> (r: String)
    requires
        report_shape(groups_view(groups@)),
        groups_fit(groups_view(groups@)),
    ensures
        r@ == rendered_groups(groups_view(groups@), is_colored(style)),
{
    let colored = match style {
        RenderStyle::Colored => true,
        RenderStyle::Plain => false,
    };
    let ghost gv = groups_view(groups@);
    let g = &groups[0];
    let help: Option<String> = if groups.len() == 2 {
        Some(groups[1].title.clone())
    } else {
        None
    };
    proof {
        assert(gv[0] == group_view(*g));
        assert(group_view(*g).snippets == snippets_view(g.snippets@));
        if groups.len() == 2 {
            assert(gv[1].snippets =~= Seq::<SnippetView>::empty());
            assert(help_groups(help) =~= seq![gv[1]]);
        } else {
            assert(help_groups(help) =~= Seq::<GroupView>::empty());
        }
        assert(gv =~= seq![gv[0]] + help_groups(help));
    }
    match (&g.level, &g.id) {
        (ReportLevel::Help, _) => {
            assert(gv =~= seq![gv[0]]);
            render_help(&g.title, g.snippets.as_slice(), colored)
        },
        (_, Some(id)) => render_lint(g.level, &g.title, id, g.snippets.as_slice(), &help, colored),
        (_, None) => render_error(&g.title, g.snippets.as_slice(), &help, colored),
    }
}

/// A hint of a runtime error: its message and where it points, if
/// anywhere (the location's `source_name` is the name shown).
#[derive(Debug)]
pub struct Hint {
    pub message: String,
    pub location: Option<SourceLoc>,
}

/// What a runtime error about a variable knows of it: where it was
/// defined, whether that is the implicit `self` of a `:` function, and
/// where it was last assigned (byte offset and length each).
#[derive(Debug, Clone, Copy)]
pub struct VarContext {
    pub definition: Option<(u32, u32)>,
    pub is_implicit_self: bool,
    pub last_assignment: Option<(u32, u32)>,
}

/// Does the location point somewhere (a byte offset or a line)?
pub open spec fn points(loc: SourceLoc) -> bool {
    loc.byte_offset > 0 || loc.line > 0
}

/// The source text of a runtime error: its bytes when they are UTF-8,
/// else none.
pub open spec fn error_source(src: Seq<u8>) -> Seq<u8> {
    if valid_utf8(src) {
        src
    } else {
        Seq::empty()
    }
}

/// Is the location shown in the source (there is a source, and the
/// location points somewhere)?
pub open spec fn shown_at(src: Seq<u8>, loc: Option<SourceLoc>) -> bool {
    error_source(src).len() > 0 && loc is Some && points(loc->0)
}

/// Context annotations as annotation views.
pub open spec fn context_views(c: Seq<(int, int, Seq<char>)>) -> Seq<AnnotationView> {
    c.map_values(|x: (int, int, Seq<char>)| AnnotationView { start: x.0, end: x.1, label: x.2, primary: false })
}

/// The annotations of a located runtime error: the primary span labelled
/// with the message's label, then the variable's context.
pub open spec fn runtime_annotations(message: Seq<char>, src: Seq<u8>, loc: SourceLoc, ctx: Option<VarContext>) -> Seq<AnnotationView> {
    let (s, e) = primary_span_spec(src, loc.byte_offset as int, loc.byte_len as int);
    seq![AnnotationView { start: s, end: e, label: label_spec(message), primary: true }] + match ctx {
        Some(c) => context_views(context_spec(src, s, c.definition, c.is_implicit_self, c.last_assignment)),
        None => Seq::empty(),
    }
}

/// The first group of a runtime error report: the error titled with its
/// message, with the annotated source where the location is shown.
pub open spec fn runtime_head(message: Seq<char>, src: Seq<u8>, loc: Option<SourceLoc>, ctx: Option<VarContext>) -> GroupView {
    GroupView {
        level: ReportLevel::Error,
        title: message,
        id: None,
        snippets: if shown_at(src, loc) {
            seq![SnippetView {
                source: decode_utf8(src),
                path: loc->0.source_name@,
                annotations: runtime_annotations(message, src, loc->0, ctx),
            }]
        } else {
            Seq::empty()
        },
    }
}

/// The group of a hint: a help titled with its message, with its span
/// (labelled with the message) where its location is shown.
pub open spec fn hint_group(src: Seq<u8>, h: Hint) -> GroupView {
    GroupView {
        level: ReportLevel::Help,
        title: h.message@,
        id: None,
        snippets: if shown_at(src, h.location) {
            seq![SnippetView {
                source: decode_utf8(src),
                path: h.location->0.source_name@,
                annotations: seq![AnnotationView {
                    start: span_spec(src, h.location->0.byte_offset as int, h.location->0.byte_len as int).0,
                    end: span_spec(src, h.location->0.byte_offset as int, h.location->0.byte_len as int).1,
                    label: h.message@,
                    primary: true,
                }],
            }]
        } else {
            Seq::empty()
        },
    }
}

/// The hints rendered one by one, each after a newline.
pub open spec fn hints_text(src: Seq<u8>, hints: Seq<Hint>, style: RenderStyle) -> Seq<char>
    decreases hints.len(),
{
    if hints.len() == 0 {
        Seq::empty()
    } else {
        hints_text(src, hints.drop_last(), style) + "\n"@ + rendered_groups(seq![hint_group(src, hints.last())], is_colored(style))
    }
}

/// The traceback after a newline, or nothing when it is empty.
pub open spec fn traceback_part(frames: Seq<FrameInfo>) -> Seq<char> {
    if traceback_text(frames).len() == 0 {
        Seq::empty()
    } else {
        "\n"@ + traceback_text(frames)
    }
}

/// A runtime error report: the error's group, each hint's group, then the
/// stack traceback.
pub open spec fn runtime_report_text(message: Seq<char>, src: Seq<u8>, loc: Option<SourceLoc>, ctx: Option<VarContext>, hints: Seq<Hint>, frames: Seq<FrameInfo>, style: RenderStyle) -> Seq<char> {
    rendered_groups(seq![runtime_head(message, src, loc, ctx)], is_colored(style)) + hints_text(src, hints, style) + traceback_part(frames)
}

/// Do the spans of a runtime error report fit its source?
pub open spec fn runtime_report_fits(message: Seq<char>, src: Seq<u8>, loc: Option<SourceLoc>, ctx: Option<VarContext>, hints: Seq<Hint>) -> bool {
    &&& groups_fit(seq![runtime_head(message, src, loc, ctx)])
    &&& forall|i: int| 0 <= i < hints.len() ==> groups_fit(seq![#[trigger] hint_group(src, hints[i])])
}

/// The annotated snippet of a shown location.
fn located_snippet(text: &String, path: &String, annotations: Vec<ReportAnnotation>) -> (r: ReportSnippet)
    ensures
        snippet_view(r) == (SnippetView {
            source: text@,
            path: path@,
            annotations: annotations@.map_values(|a: ReportAnnotation| annotation_view(a)),
        }),
{
    ReportSnippet { source: text.clone(), path: path.clone(), annotations }
}

/// The group of a hint.
fn hint_report_group(source: &[u8], text: &Option<String>, h: &Hint) -> (r: ReportGroup)
    requires
        text is Some <==> error_source(source@).len() > 0,
        text matches Some(t) ==> t@ == decode_utf8(source@) && valid_utf8(source@),
    ensures
        group_view(r) == hint_group(source@, *h),
{
    let mut snippets: Vec<ReportSnippet> = Vec::new();
    match (text, &h.location) {
        (Some(t), Some(loc)) => {
            if loc.byte_offset > 0 || loc.line > 0 {
                let (a, e) = annotation_span(source, loc.byte_offset, loc.byte_len);
                let mut anns: Vec<ReportAnnotation> = Vec::new();
                anns.push(ReportAnnotation { start: a, end: e, label: h.message.clone(), primary: true });
                assert(anns@.map_values(|x: ReportAnnotation| annotation_view(x)) =~= hint_group(source@, *h).snippets[0].annotations);
                snippets.push(located_snippet(t, &loc.source_name, anns));
                assert(snippets@.map_values(|x: ReportSnippet| snippet_view(x)) =~= hint_group(source@, *h).snippets);
            } else {
                assert(snippets@.map_values(|x: ReportSnippet| snippet_view(x)) =~= hint_group(source@, *h).snippets);
            }
        },
        _ => {
            assert(snippets@.map_values(|x: ReportSnippet| snippet_view(x)) =~= hint_group(source@, *h).snippets);
        },
    }
    ReportGroup { level: ReportLevel::Help, title: h.message.clone(), id: None, snippets }
}

/// The text of a runtime error's source: its bytes as a string when they
/// are UTF-8 and not empty.
fn error_source_text(source: &[u8]) -> (r: Option<String>)
    ensures
        r is Some <==> error_source(source@).len() > 0,
        r matches Some(t) ==> t@ == decode_utf8(source@) && valid_utf8(source@) && encode_utf8(t@) == source@,
{
    let text: Option<String> = match utf8_string(source) {
        Some(t) => if source.len() > 0 { Some(t) } else { None },
        None => None,
    };
    proof {
        if valid_utf8(source@) {
            decode_utf8_encode_utf8(source@);
        }
    }
    text
}

/// The first group of a runtime error report.
fn runtime_head_group(message: &str, source: &[u8], text: &Option<String>, loc: &Option<SourceLoc>, ctx: Option<VarContext>) -> (r: ReportGroup)
    requires
        text is Some <==> error_source(source@).len() > 0,
        text matches Some(t) ==> t@ == decode_utf8(source@) && valid_utf8(source@),
    ensures
        group_view(r) == runtime_head(message@, source@, *loc, ctx),
{
    let ghost head_view = runtime_head(message@, source@, *loc, ctx);
    let mut snippets: Vec<ReportSnippet> = Vec::new();
    match (text, loc) {
        (Some(t), Some(l)) => {
            if l.byte_offset > 0 || l.line > 0 {
                let (a, e) = if (l.byte_offset as usize) <= source.len() {
                    primary_span(source, l.byte_offset, l.byte_len)
                } else {
                    (l.byte_offset as usize, source.len())
                };
                let mut anns: Vec<ReportAnnotation> = Vec::new();
                anns.push(ReportAnnotation { start: a, end: e, label: annotation_label(message), primary: true });
                let ghost first = anns@.map_values(|x: ReportAnnotation| annotation_view(x));
                match ctx {
                    Some(c) => {
                        let cs = context_annotations(source, a, c.definition, c.is_implicit_self, c.last_assignment);
                        let ghost cv = crate::diagnostic::annotation_views(cs@);
                        let mut i: usize = 0;
                        while i < cs.len()
                            invariant
                                i <= cs@.len(),
                                cv == crate::diagnostic::annotation_views(cs@),
                                anns@.map_values(|x: ReportAnnotation| annotation_view(x)) == first + context_views(cv.take(i as int)),
                            decreases cs@.len() - i,
                        {
                            let ghost before = anns@;
                            let item = ReportAnnotation { start: cs[i].start, end: cs[i].end, label: cs[i].label.clone(), primary: false };
                            assert(annotation_view(item) == context_views(cv.take(i + 1))[i as int]);
                            anns.push(item);
                            assert(anns@ == before.push(item));
                            assert(context_views(cv.take(i + 1)) =~= context_views(cv.take(i as int)).push(annotation_view(item)));
                            assert(anns@.map_values(|x: ReportAnnotation| annotation_view(x)) =~= before.map_values(
                                |x: ReportAnnotation| annotation_view(x),
                            ).push(annotation_view(item)));
                            i = i + 1;
                        }
                        assert(cv.take(cs@.len() as int) =~= cv);
                    },
                    None => {},
                }
                assert(anns@.map_values(|x: ReportAnnotation| annotation_view(x)) =~= runtime_annotations(message@, source@, (*loc)->0, ctx));
                snippets.push(located_snippet(t, &l.source_name, anns));
            }
        },
        _ => {},
    }
    assert(snippets@.map_values(|x: ReportSnippet| snippet_view(x)) =~= head_view.snippets);
    ReportGroup { level: ReportLevel::Error, title: message.to_owned(), id: None, snippets }
}

/// Render a runtime error: `message` (the error's text) titles the
/// report; where `source` is UTF-8 and not empty and `loc` points into
/// it, the primary span (at most three lines) is underlined with the
/// message's label, and the variable's definition and last assignment
/// annotated; each hint follows as a help, then the traceback of
/// `frames`.
pub fn render_runtime_error(message: &str, source: &[u8], loc: &Option<SourceLoc>, ctx: Option<VarContext>, hints: &[Hint], frames: &[FrameInfo], style: RenderStyle) -> (r: String)
    requires
        runtime_report_fits(message@, source@, *loc, ctx, hints@),
    ensures
        r@ == runtime_report_text(message@, source@, *loc, ctx, hints@, frames@, style),
{
    let text = error_source_text(source);
    let head = runtime_head_group(message, source, &text, loc, ctx);
    let mut report: Vec<ReportGroup> = Vec::new();
    report.push(head);
    assert(groups_view(report@) =~= seq![runtime_head(message@, source@, *loc, ctx)]);
    let mut out = render_groups(report.as_slice(), style);
    let mut i: usize = 0;
    while i < hints.len()
        invariant
            i <= hints@.len(),
            runtime_report_fits(message@, source@, *loc, ctx, hints@),
            text is Some <==> error_source(source@).len() > 0,
            text matches Some(t) ==> t@ == decode_utf8(source@) && valid_utf8(source@),
            out@ == rendered_groups(seq![runtime_head(message@, source@, *loc, ctx)], is_colored(style)) + hints_text(source@, hints@.take(i as int), style),
        decreases hints@.len() - i,
    {
        let g = hint_report_group(source, &text, &hints[i]);
        let mut one: Vec<ReportGroup> = Vec::new();
        one.push(g);
        assert(groups_view(one@) =~= seq![hint_group(source@, hints@[i as int])]);
        let piece = render_groups(one.as_slice(), style);
        out.append("\n");
        out.append(piece.as_str());
        assert(hints@.take(i + 1).drop_last() =~= hints@.take(i as int));
        i = i + 1;
    }
    assert(hints@.take(hints@.len() as int) =~= hints@);
    let tb = format_traceback(frames);
    if !tb.as_str().is_empty() {
        out.append("\n");
        out.append(tb.as_str());
    }
    out
}

/// A compiler diagnostic as the report needs it: severity, message, the
/// lint's id, the location (with the name shown for its source), the
/// primary label if any, the secondary spans with their labels, and the
/// help text if any.
#[derive(Debug)]
pub struct WarningDiag {
    pub severity: Severity,
    pub message: String,
    pub id: String,
    pub location: SourceLoc,
    pub display_name: String,
    pub primary_label: Option<String>,
    pub secondary_spans: Vec<(SourceLoc, String)>,
    pub help: Option<String>,
}

/// The title level of a severity: an allowed diagnostic is a note.
pub open spec fn level_of(sev: Severity) -> ReportLevel {
    match sev {
        Severity::Error => ReportLevel::Error,
        Severity::Warning => ReportLevel::Warning,
        Severity::Allow => ReportLevel::Note,
    }
}

fn level_for(sev: Severity) -> (r: ReportLevel)
    ensures
        r == level_of(sev),
{
    match sev {
        Severity::Error => ReportLevel::Error,
        Severity::Warning => ReportLevel::Warning,
        Severity::Allow => ReportLevel::Note,
    }
}

/// The label of the primary span: the primary label, else the message.
pub open spec fn primary_label_of(d: WarningDiag) -> Seq<char> {
    match d.primary_label {
        Some(l) => l@,
        None => d.message@,
    }
}

/// The help group that follows a diagnostic with a help text.
pub open spec fn help_groups(help: Option<String>) -> Seq<GroupView> {
    match help {
        Some(h) => seq![GroupView { level: ReportLevel::Help, title: h@, id: None, snippets: Seq::empty() }],
        None => Seq::empty(),
    }
}

/// The groups of one diagnostic over the source `src`: its title with
/// the lint's id and, where the location points somewhere, the snippet
/// with the primary span and the secondary spans in the same source;
/// then its help.
pub open spec fn warning_groups(src: Seq<char>, d: WarningDiag) -> Seq<GroupView> {
    let b = encode_utf8(src);
    let sp = span_spec(b, d.location.byte_offset as int, d.location.byte_len as int);
    seq![GroupView {
        level: level_of(d.severity),
        title: d.message@,
        id: Some(d.id@),
        snippets: if points(d.location) {
            seq![SnippetView {
                source: src,
                path: d.display_name@,
                annotations: seq![AnnotationView { start: sp.0, end: sp.1, label: primary_label_of(d), primary: true }]
                    + context_views(secondary_spec(b, d.location.source_name@, d.secondary_spans@)),
            }]
        } else {
            Seq::empty()
        },
    }] + help_groups(d.help)
}

/// Reports joined by newlines, an empty text taking none.
pub open spec fn join_report(out: Seq<char>, r: Seq<char>) -> Seq<char> {
    if out.len() == 0 {
        r
    } else {
        out + "\n"@ + r
    }
}

/// The diagnostics at the indices `order`, each rendered and joined.
pub open spec fn warnings_fold(src: Seq<char>, diags: Seq<WarningDiag>, order: Seq<int>, style: RenderStyle) -> Seq<char>
    decreases order.len(),
{
    if order.len() == 0 {
        Seq::empty()
    } else {
        join_report(
            warnings_fold(src, diags, order.drop_last(), style),
            rendered_groups(warning_groups(src, diags[order.last()]), is_colored(style)),
        )
    }
}

/// The severities of the diagnostics.
pub open spec fn severities(diags: Seq<WarningDiag>) -> Seq<Severity> {
    diags.map_values(|d: WarningDiag| d.severity)
}

/// The report of the diagnostics: errors first, then warnings, then
/// allowed ones, each kind in the order given.
pub open spec fn warning_report_text(src: Seq<char>, diags: Seq<WarningDiag>, style: RenderStyle) -> Seq<char> {
    warnings_fold(src, diags, warning_order_spec(severities(diags)), style)
}

/// Do the spans of every diagnostic fit the source?
pub open spec fn warnings_fit(src: Seq<char>, diags: Seq<WarningDiag>) -> bool {
    forall|i: int| 0 <= i < diags.len() ==> groups_fit(#[trigger] warning_groups(src, diags[i]))
}

proof fn lemma_indices_in_range(sev: Seq<Severity>, s: Severity, n: int)
    requires
        n <= sev.len(),
    ensures
        forall|k: int| 0 <= k < indices_of(sev, s, n).len() ==> 0 <= #[trigger] indices_of(sev, s, n)[k] < n,
    decreases n,
{
    if n > 0 {
        lemma_indices_in_range(sev, s, n - 1);
        let prev = indices_of(sev, s, n - 1);
        if sev[n - 1] == s {
            assert(indices_of(sev, s, n) == prev.push(n - 1));
        } else {
            assert(indices_of(sev, s, n) == prev);
        }
    }
}

/// Append the annotations as context annotations.
fn push_context(anns: &mut Vec<ReportAnnotation>, cs: &Vec<Annotation>)
    ensures
        final(anns)@.map_values(|x: ReportAnnotation| annotation_view(x)) == old(anns)@.map_values(
            |x: ReportAnnotation| annotation_view(x),
        ) + context_views(annotation_views(cs@)),
{
    let ghost first = anns@.map_values(|x: ReportAnnotation| annotation_view(x));
    let ghost cv = annotation_views(cs@);
    let mut i: usize = 0;
    while i < cs.len()
        invariant
            i <= cs@.len(),
            first == old(anns)@.map_values(|x: ReportAnnotation| annotation_view(x)),
            cv == annotation_views(cs@),
            anns@.map_values(|x: ReportAnnotation| annotation_view(x)) == first + context_views(cv.take(i as int)),
        decreases cs@.len() - i,
    {
        let ghost before = anns@;
        let item = ReportAnnotation { start: cs[i].start, end: cs[i].end, label: cs[i].label.clone(), primary: false };
        assert(annotation_view(item) == context_views(cv.take(i + 1))[i as int]);
        anns.push(item);
        assert(anns@ == before.push(item));
        assert(context_views(cv.take(i + 1)) =~= context_views(cv.take(i as int)).push(annotation_view(item)));
        assert(anns@.map_values(|x: ReportAnnotation| annotation_view(x)) =~= before.map_values(
            |x: ReportAnnotation| annotation_view(x),
        ).push(annotation_view(item)));
        i = i + 1;
    }
    assert(cv.take(cs@.len() as int) =~= cv);
}

/// The groups of one diagnostic.
fn warning_report_groups(source: &str, d: &WarningDiag) -> (r: Vec<ReportGroup>)
    ensures
        groups_view(r@) == warning_groups(source@, *d),
{
    let b = source.as_bytes();
    let mut snippets: Vec<ReportSnippet> = Vec::new();
    if d.location.byte_offset > 0 || d.location.line > 0 {
        let (a, e) = annotation_span(b, d.location.byte_offset, d.location.byte_len);
        let label = match &d.primary_label {
            Some(l) => l.clone(),
            None => d.message.clone(),
        };
        let mut anns: Vec<ReportAnnotation> = Vec::new();
        anns.push(ReportAnnotation { start: a, end: e, label, primary: true });
        let secs = secondary_annotations(b, &d.location.source_name, d.secondary_spans.as_slice());
        push_context(&mut anns, &secs);
        assert(anns@.map_values(|x: ReportAnnotation| annotation_view(x)) =~= warning_groups(source@, *d)[0].snippets[0].annotations);
        snippets.push(ReportSnippet { source: source.to_owned(), path: d.display_name.clone(), annotations: anns });
    }
    assert(snippets@.map_values(|x: ReportSnippet| snippet_view(x)) =~= warning_groups(source@, *d)[0].snippets);
    let id = d.id.clone();
    let mut out: Vec<ReportGroup> = Vec::new();
    out.push(ReportGroup { level: level_for(d.severity), title: d.message.clone(), id: Some(id), snippets });
    match &d.help {
        Some(h) => {
            out.push(ReportGroup { level: ReportLevel::Help, title: h.clone(), id: None, snippets: Vec::new() });
            assert(groups_view(out@)[1].snippets =~= Seq::<SnippetView>::empty());
        },
        None => {},
    }
    assert(groups_view(out@) =~= warning_groups(source@, *d));
    out
}

/// Render compiler diagnostics over `source`, one report each, errors
/// first, then warnings, then allowed ones (each kind in the order
/// given), joined by newlines; nothing for no diagnostics.
pub fn render_warnings(diags: &[WarningDiag], source: &str, style: RenderStyle) -> (r: String)
    requires
        warnings_fit(source@, diags@),
    ensures
        r@ == warning_report_text(source@, diags@, style),
{
    let n = diags.len();
    let mut sev: Vec<Severity> = Vec::new();
    let mut i: usize = 0;
    while i < n
        invariant
            n == diags@.len(),
            i <= n,
            sev@ == severities(diags@).take(i as int),
        decreases n - i,
    {
        sev.push(diags[i].severity);
        i = i + 1;
        assert(sev@ =~= severities(diags@).take(i as int));
    }
    assert(severities(diags@).take(n as int) =~= severities(diags@));
    let order = warning_order(sev.as_slice());
    let ghost ord = warning_order_spec(severities(diags@));
    proof {
        let sv = severities(diags@);
        lemma_indices_in_range(sv, Severity::Error, sv.len() as int);
        lemma_indices_in_range(sv, Severity::Warning, sv.len() as int);
        lemma_indices_in_range(sv, Severity::Allow, sv.len() as int);
        assert forall|k: int| 0 <= k < ord.len() implies 0 <= #[trigger] ord[k] < n by {
            let e = indices_of(sv, Severity::Error, sv.len() as int);
            let w = indices_of(sv, Severity::Warning, sv.len() as int);
            if k < e.len() {
                assert(ord[k] == e[k]);
            } else if k < e.len() + w.len() {
                assert(ord[k] == w[k - e.len()]);
            } else {
                assert(ord[k] == indices_of(sv, Severity::Allow, sv.len() as int)[k - e.len() - w.len()]);
            }
        }
    }
    let mut out = String::new();
    let mut k: usize = 0;
    while k < order.len()
        invariant
            k <= order@.len(),
            n == diags@.len(),
            crate::diagnostic::out_view(order@) == ord,
            forall|j: int| 0 <= j < ord.len() ==> 0 <= #[trigger] ord[j] < n,
            warnings_fit(source@, diags@),
            out@ == warnings_fold(source@, diags@, ord.take(k as int), style),
        decreases order@.len() - k,
    {
        let idx = order[k];
        assert(ord[k as int] == idx as int);
        let groups = warning_report_groups(source, &diags[idx]);
        let piece = render_groups(groups.as_slice(), style);
        if !out.as_str().is_empty() {
            out.append("\n");
        }
        out.append(piece.as_str());
        assert(ord.take(k + 1).drop_last() =~= ord.take(k as int));
        k = k + 1;
    }
    assert(ord.take(order@.len() as int) =~= ord);
    out
}

/// A source that a diagnostic may point into: its name, the name shown
/// for it, and its text.
#[derive(Debug)]
pub struct SourceText {
    pub name: String,
    pub display: String,
    pub text: String,
}

/// The index of the first source named `name`, if any.
pub open spec fn lookup_source(sources: Seq<SourceText>, name: Seq<char>) -> Option<int>
    decreases sources.len(),
{
    if sources.len() == 0 {
        None
    } else {
        match lookup_source(sources.drop_last(), name) {
            Some(k) => Some(k),
            None => if sources.last().name@ == name {
                Some(sources.len() - 1)
            } else {
                None
            },
        }
    }
}

/// The bytes of the source named `name` (none where there is no such
/// source).
pub open spec fn source_bytes(sources: Seq<SourceText>, name: Seq<char>) -> Seq<u8> {
    match lookup_source(sources, name) {
        Some(k) => encode_utf8(sources[k].text@),
        None => Seq::empty(),
    }
}

/// Is a secondary span rendered: its source is known and it points
/// somewhere?
pub open spec fn kept_secondary(sources: Seq<SourceText>, loc: SourceLoc) -> bool {
    lookup_source(sources, loc.source_name@) is Some && points(loc)
}

/// The context annotations in the source named `name`: the rendered
/// secondary spans into it, in order.
pub open spec fn secondary_views(sources: Seq<SourceText>, secs: Seq<(SourceLoc, String)>, name: Seq<char>) -> Seq<AnnotationView>
    decreases secs.len(),
{
    if secs.len() == 0 {
        Seq::empty()
    } else {
        let prev = secondary_views(sources, secs.drop_last(), name);
        let (loc, label) = secs.last();
        if kept_secondary(sources, loc) && loc.source_name@ == name {
            let sp = span_spec(source_bytes(sources, name), loc.byte_offset as int, loc.byte_len as int);
            prev.push(AnnotationView { start: sp.0, end: sp.1, label: label@, primary: false })
        } else {
            prev
        }
    }
}

/// The primary annotation, where the primary source is known.
pub open spec fn primary_views(d: WarningDiag, sources: Seq<SourceText>) -> Seq<AnnotationView> {
    let name = d.location.source_name@;
    if lookup_source(sources, name) is Some {
        let sp = span_spec(source_bytes(sources, name), d.location.byte_offset as int, d.location.byte_len as int);
        seq![AnnotationView { start: sp.0, end: sp.1, label: primary_label_of(d), primary: true }]
    } else {
        Seq::empty()
    }
}

/// The snippet of the source named `name`: its text, the name shown, the
/// primary annotation where it is the primary source, then its context
/// annotations.
pub open spec fn source_snippet(d: WarningDiag, sources: Seq<SourceText>, name: Seq<char>) -> SnippetView {
    let k = lookup_source(sources, name)->0;
    SnippetView {
        source: sources[k].text@,
        path: sources[k].display@,
        annotations: (if name == d.location.source_name@ {
            primary_views(d, sources)
        } else {
            Seq::empty()
        }) + secondary_views(sources, d.secondary_spans@, name),
    }
}

/// Is `x` another source that a rendered secondary span points into?
pub open spec fn other_source(d: WarningDiag, sources: Seq<SourceText>, x: Seq<char>) -> bool {
    x != d.location.source_name@ && exists|i: int|
        0 <= i < d.secondary_spans@.len() && kept_secondary(sources, #[trigger] d.secondary_spans@[i].0)
            && d.secondary_spans@[i].0.source_name@ == x
}

/// The other sources in the order of their names, each once.
pub open spec fn other_sources_ok(d: WarningDiag, sources: Seq<SourceText>, others: Seq<Seq<char>>) -> bool {
    &&& strictly_sorted(others)
    &&& forall|x: Seq<char>| #[trigger] others.contains(x) <==> other_source(d, sources, x)
}

/// The groups of a diagnostic over several sources: one snippet per
/// source, the primary source's first (where it is known), then the
/// others in the order of their names; then its help.
pub open spec fn multi_source_groups(d: WarningDiag, sources: Seq<SourceText>, others: Seq<Seq<char>>) -> Seq<GroupView> {
    let name = d.location.source_name@;
    seq![GroupView {
        level: level_of(d.severity),
        title: d.message@,
        id: Some(d.id@),
        snippets: (if lookup_source(sources, name) is Some {
            seq![source_snippet(d, sources, name)]
        } else {
            Seq::empty()
        }) + others.map_values(|x: Seq<char>| source_snippet(d, sources, x)),
    }] + help_groups(d.help)
}

/// Is `r` the rendering of the diagnostic over the sources?
pub open spec fn multi_source_reading(r: Seq<char>, d: WarningDiag, sources: Seq<SourceText>, style: RenderStyle) -> bool {
    exists|others: Seq<Seq<char>>|
        #[trigger] other_sources_ok(d, sources, others) && r == rendered_groups(multi_source_groups(d, sources, others), is_colored(style))
}

/// Do the spans of the diagnostic fit the sources they point into?
pub open spec fn multi_source_fits(d: WarningDiag, sources: Seq<SourceText>) -> bool {
    forall|others: Seq<Seq<char>>|
        #[trigger] other_sources_ok(d, sources, others) ==> groups_fit(multi_source_groups(d, sources, others))
}

proof fn lemma_lookup_prefix(sources: Seq<SourceText>, name: Seq<char>, m: int, n: int)
    requires
        0 <= m <= n <= sources.len(),
        lookup_source(sources.take(m), name) is Some,
    ensures
        lookup_source(sources.take(n), name) == lookup_source(sources.take(m), name),
    decreases n - m,
{
    if n > m {
        lemma_lookup_prefix(sources, name, m, n - 1);
        assert(sources.take(n).drop_last() =~= sources.take(n - 1));
    }
}

/// The index of the first source named `name`.
fn find_source(sources: &[SourceText], name: &String) -> (r: Option<usize>)
    ensures
        match r {
            Some(k) => lookup_source(sources@, name@) == Some(k as int) && k < sources@.len(),
            None => lookup_source(sources@, name@) is None,
        },
{
    let n = sources.len();
    let mut i: usize = 0;
    while i < n
        invariant
            n == sources@.len(),
            i <= n,
            lookup_source(sources@.take(i as int), name@) is None,
        decreases n - i,
    {
        assert(sources@.take(i + 1).drop_last() =~= sources@.take(i as int));
        if sources[i].name == *name {
            proof {
                assert(lookup_source(sources@.take(i + 1), name@) == Some(i as int));
                lemma_lookup_prefix(sources@, name@, i + 1, n as int);
                assert(sources@.take(n as int) =~= sources@);
            }
            return Some(i);
        }
        i = i + 1;
    }
    assert(sources@.take(n as int) =~= sources@);
    None
}

/// The context annotations of the diagnostic in the source named `name`,
/// found at index `k`.
fn secondary_report_annotations(d: &WarningDiag, sources: &[SourceText], name: &String, k: usize, anns: &mut Vec<ReportAnnotation>)
    requires
        lookup_source(sources@, name@) == Some(k as int),
        k < sources@.len(),
    ensures
        final(anns)@.map_values(|x: ReportAnnotation| annotation_view(x)) == old(anns)@.map_values(
            |x: ReportAnnotation| annotation_view(x),
        ) + secondary_views(sources@, d.secondary_spans@, name@),
{
    let secs = &d.secondary_spans;
    let n = secs.len();
    let ghost first = anns@.map_values(|x: ReportAnnotation| annotation_view(x));
    let text = sources[k].text.as_str().as_bytes();
    let mut i: usize = 0;
    while i < n
        invariant
            n == secs@.len(),
            i <= n,
            k < sources@.len(),
            lookup_source(sources@, name@) == Some(k as int),
            text@ == encode_utf8(sources@[k as int].text@),
            first == old(anns)@.map_values(|x: ReportAnnotation| annotation_view(x)),
            anns@.map_values(|x: ReportAnnotation| annotation_view(x)) == first + secondary_views(sources@, secs@.take(i as int), name@),
        decreases n - i,
    {
        let ghost before = anns@;
        assert(secs@.take(i + 1).drop_last() =~= secs@.take(i as int));
        let (loc, label) = &secs[i];
        if loc.source_name == *name && (loc.byte_offset > 0 || loc.line > 0) {
            let (a, e) = annotation_span(text, loc.byte_offset, loc.byte_len);
            let item = ReportAnnotation { start: a, end: e, label: label.clone(), primary: false };
            anns.push(item);
            assert(anns@.map_values(|x: ReportAnnotation| annotation_view(x)) =~= before.map_values(
                |x: ReportAnnotation| annotation_view(x),
            ).push(annotation_view(item)));
        }
        i = i + 1;
        assert(anns@.map_values(|x: ReportAnnotation| annotation_view(x)) =~= first + secondary_views(sources@, secs@.take(i as int), name@));
    }
    assert(secs@.take(n as int) =~= secs@);
}

/// The snippet of the source named `name`, found at index `k`.
fn source_report_snippet(d: &WarningDiag, sources: &[SourceText], name: &String, k: usize) -> (r: ReportSnippet)
    requires
        lookup_source(sources@, name@) == Some(k as int),
        k < sources@.len(),
    ensures
        snippet_view(r) == source_snippet(*d, sources@, name@),
{
    let mut anns: Vec<ReportAnnotation> = Vec::new();
    if *name == d.location.source_name {
        let text = sources[k].text.as_str().as_bytes();
        let (a, e) = annotation_span(text, d.location.byte_offset, d.location.byte_len);
        let label = match &d.primary_label {
            Some(l) => l.clone(),
            None => d.message.clone(),
        };
        anns.push(ReportAnnotation { start: a, end: e, label, primary: true });
        assert(anns@.map_values(|x: ReportAnnotation| annotation_view(x)) =~= primary_views(*d, sources@));
    } else {
        assert(anns@.map_values(|x: ReportAnnotation| annotation_view(x)) =~= Seq::<AnnotationView>::empty());
    }
    secondary_report_annotations(d, sources, name, k, &mut anns);
    ReportSnippet { source: sources[k].text.clone(), path: sources[k].display.clone(), annotations: anns }
}

/// The groups of a diagnostic over several sources, and the order of
/// the other sources they show.
fn multi_source_report_groups(d: &WarningDiag, sources: &[SourceText]) -> (r: (Vec<ReportGroup>, Ghost<Seq<Seq<char>>>))
    ensures
        other_sources_ok(*d, sources@, r.1@),
        groups_view(r.0@) == multi_source_groups(*d, sources@, r.1@),
{
    let secs = &d.secondary_spans;
    let n = secs.len();
    let primary = &d.location.source_name;
    let mut others: Vec<String> = Vec::new();
    let mut i: usize = 0;
    while i < n
        invariant
            n == secs@.len(),
            secs == &d.secondary_spans,
            primary == &d.location.source_name,
            i <= n,
            strictly_sorted(views(others@)),
            forall|x: Seq<char>| #[trigger] views(others@).contains(x) <==> (x != primary@ && exists|j: int|
                0 <= j < i && kept_secondary(sources@, #[trigger] secs@[j].0) && secs@[j].0.source_name@ == x),
        decreases n - i,
    {
        let loc = &secs[i].0;
        let found = find_source(sources, &loc.source_name);
        if found.is_some() && (loc.byte_offset > 0 || loc.line > 0) && loc.source_name != *primary {
            insert_name(&mut others, &loc.source_name);
        }
        proof {
            assert forall|x: Seq<char>| #[trigger] views(others@).contains(x) <==> (x != primary@ && exists|j: int|
                0 <= j < i + 1 && kept_secondary(sources@, #[trigger] secs@[j].0) && secs@[j].0.source_name@ == x) by {
                if x != primary@ && x == secs@[i as int].0.source_name@ && kept_secondary(sources@, secs@[i as int].0) {
                    assert(views(others@).contains(x));
                }
                if views(others@).contains(x) && !(x == secs@[i as int].0.source_name@ && kept_secondary(sources@, secs@[i as int].0)) {
                    let j = choose|j: int| 0 <= j < i && kept_secondary(sources@, #[trigger] secs@[j].0) && secs@[j].0.source_name@ == x;
                    assert(0 <= j < i + 1);
                }
            }
        }
        i = i + 1;
    }
    let ghost ov = views(others@);
    assert(other_sources_ok(*d, sources@, ov));
    let mut snippets: Vec<ReportSnippet> = Vec::new();
    match find_source(sources, primary) {
        Some(k) => {
            snippets.push(source_report_snippet(d, sources, primary, k));
        },
        None => {},
    }
    let ghost lead = snippets@.map_values(|x: ReportSnippet| snippet_view(x));
    let m = others.len();
    let mut j: usize = 0;
    while j < m
        invariant
            m == others@.len(),
            j <= m,
            ov == views(others@),
            other_sources_ok(*d, sources@, ov),
            primary == &d.location.source_name,
            snippets@.map_values(|x: ReportSnippet| snippet_view(x)) == lead + ov.take(j as int).map_values(
                |x: Seq<char>| source_snippet(*d, sources@, x),
            ),
        decreases m - j,
    {
        let ghost before = snippets@;
        assert(ov.contains(ov[j as int]));
        let found = find_source(sources, &others[j]);
        match found {
            Some(k) => {
                let sn = source_report_snippet(d, sources, &others[j], k);
                snippets.push(sn);
                assert(snippets@.map_values(|x: ReportSnippet| snippet_view(x)) =~= before.map_values(
                    |x: ReportSnippet| snippet_view(x),
                ).push(snippet_view(sn)));
                assert(ov.take(j + 1).map_values(|x: Seq<char>| source_snippet(*d, sources@, x)) =~= ov.take(
                    j as int,
                ).map_values(|x: Seq<char>| source_snippet(*d, sources@, x)).push(snippet_view(sn)));
            },
            None => {
                proof {
                    // Every other source is the source of a rendered span, hence known.
                    let w = choose|w: int| 0 <= w < d.secondary_spans@.len() && kept_secondary(sources@, #[trigger] d.secondary_spans@[w].0)
                        && d.secondary_spans@[w].0.source_name@ == ov[j as int];
                    assert(lookup_source(sources@, ov[j as int]) is Some);
                }
            },
        }
        j = j + 1;
    }
    assert(ov.take(m as int) =~= ov);
    let mut groups: Vec<ReportGroup> = Vec::new();
    groups.push(ReportGroup { level: level_for(d.severity), title: d.message.clone(), id: Some(d.id.clone()), snippets });
    match &d.help {
        Some(h) => {
            groups.push(ReportGroup { level: ReportLevel::Help, title: h.clone(), id: None, snippets: Vec::new() });
            assert(groups_view(groups@)[1].snippets =~= Seq::<SnippetView>::empty());
        },
        None => {},
    }
    assert(groups_view(groups@)[0].snippets =~= multi_source_groups(*d, sources@, ov)[0].snippets);
    assert(groups_view(groups@) =~= multi_source_groups(*d, sources@, ov));
    (groups, Ghost(ov))
}

proof fn lemma_sorted_unique(a: Seq<Seq<char>>, b: Seq<Seq<char>>)
    requires
        strictly_sorted(a),
        strictly_sorted(b),
        forall|x: Seq<char>| a.contains(x) <==> b.contains(x),
    ensures
        a == b,
    decreases a.len(),
{
    if a.len() == 0 {
        if b.len() > 0 {
            assert(b.contains(b[0]));
        }
        assert(a =~= b);
    } else if b.len() == 0 {
        assert(a.contains(a[0]));
    } else {
        assert(a.contains(a[0]));
        assert(b.contains(b[0]));
        if a[0] != b[0] {
            let j = choose|j: int| 0 <= j < b.len() && b[j] == a[0];
            let i = choose|i: int| 0 <= i < a.len() && a[i] == b[0];
            assert(name_less(b[0], b[j]));
            assert(name_less(a[0], a[i]));
            lemma_name_order(a[0], b[0], a[0]);
        }
        let a1 = a.drop_first();
        let b1 = b.drop_first();
        assert forall|x: Seq<char>| a1.contains(x) <==> b1.contains(x) by {
            if a1.contains(x) {
                let k = choose|k: int| 0 <= k < a1.len() && a1[k] == x;
                assert(a[k + 1] == x);
                assert(name_less(a[0], a[k + 1]));
                lemma_name_order(x, x, x);
                assert(a.contains(x));
                assert(b.contains(x));
                let m = choose|m: int| 0 <= m < b.len() && b[m] == x;
                assert(m != 0);
                assert(b1[m - 1] == x);
            }
            if b1.contains(x) {
                let k = choose|k: int| 0 <= k < b1.len() && b1[k] == x;
                assert(b[k + 1] == x);
                assert(name_less(b[0], b[k + 1]));
                lemma_name_order(x, x, x);
                assert(b.contains(x));
                assert(a.contains(x));
                let m = choose|m: int| 0 <= m < a.len() && a[m] == x;
                assert(m != 0);
                assert(a1[m - 1] == x);
            }
        }
        assert forall|i: int, j: int| 0 <= i < j < a1.len() implies name_less(#[trigger] a1[i], #[trigger] a1[j]) by {
            assert(a1[i] == a[i + 1] && a1[j] == a[j + 1]);
        }
        assert forall|i: int, j: int| 0 <= i < j < b1.len() implies name_less(#[trigger] b1[i], #[trigger] b1[j]) by {
            assert(b1[i] == b[i + 1] && b1[j] == b[j + 1]);
        }
        lemma_sorted_unique(a1, b1);
        assert(a =~= b) by {
            assert forall|i: int| 0 <= i < a.len() implies a[i] == b[i] by {
                if i > 0 {
                    assert(a[i] == a1[i - 1]);
                    assert(b[i] == b1[i - 1]);
                }
            }
        }
    }
}

/// Does the diagnostic render over the sources: do its spans fit the
/// sources they point into?
pub fn multi_source_renders(d: &WarningDiag, sources: &[SourceText]) -> (r: bool)
    ensures
        r == multi_source_fits(*d, sources@),
{
    let (groups, Ghost(ov)) = multi_source_report_groups(d, sources);
    let r = groups_fit_exec(groups.as_slice());
    proof {
        assert forall|others: Seq<Seq<char>>| #[trigger] other_sources_ok(*d, sources@, others) implies others == ov by {
            lemma_sorted_unique(others, ov);
        }
    }
    r
}

/// Render one diagnostic whose spans may point into several sources:
/// the text of each is looked up by name in `sources` (the first source
/// of a name counts), and spans into unknown sources are left out.  Each
/// source gets a snippet, the primary one first, then the others in the
/// order of their names; a help text follows.
pub fn render_diagnostic_multi_source(d: &WarningDiag, sources: &[SourceText], style: RenderStyle) -> (r: String)
    requires
        multi_source_fits(*d, sources@),
    ensures
        multi_source_reading(r@, *d, sources@, style),
{
    let (groups, Ghost(ov)) = multi_source_report_groups(d, sources);
    let r = render_groups(groups.as_slice(), style);
    assert(other_sources_ok(*d, sources@, ov));
    r
}

/// Render one compiler diagnostic over `source`: the same as
/// `render_warnings` on it alone.
pub fn render_warning(diag: &WarningDiag, source: &str, style: RenderStyle) -> (r: String)
    requires
        groups_fit(warning_groups(source@, *diag)),
    ensures
        r@ == warning_report_text(source@, seq![*diag], style),
{
    let groups = warning_report_groups(source, diag);
    let r = render_groups(groups.as_slice(), style);
    proof {
        let sv = severities(seq![*diag]);
        assert(sv =~= seq![diag.severity]);
        assert(sv.drop_last() =~= Seq::<Severity>::empty());
        let ord = warning_order_spec(sv);
        assert(sv[0] == diag.severity);
        assert(indices_of(sv, Severity::Error, 0) =~= Seq::<int>::empty());
        assert(indices_of(sv, Severity::Warning, 0) =~= Seq::<int>::empty());
        assert(indices_of(sv, Severity::Allow, 0) =~= Seq::<int>::empty());
        assert(indices_of(sv, Severity::Error, 1) == indices_of(sv, Severity::Error, 0) || indices_of(sv, Severity::Error, 1) == indices_of(sv, Severity::Error, 0).push(0));
        assert(indices_of(sv, Severity::Warning, 1) == indices_of(sv, Severity::Warning, 0) || indices_of(sv, Severity::Warning, 1) == indices_of(sv, Severity::Warning, 0).push(0));
        assert(indices_of(sv, Severity::Allow, 1) == indices_of(sv, Severity::Allow, 0) || indices_of(sv, Severity::Allow, 1) == indices_of(sv, Severity::Allow, 0).push(0));
        assert(ord =~= seq![0int]);
        assert(ord.drop_last() =~= Seq::<int>::empty());
        assert(warnings_fold(source@, seq![*diag], ord.drop_last(), style) =~= Seq::<char>::empty());
    }
    r
}

/// What a compile error is: a parse error, an unsupported feature (named
/// by its text), or a semantic error.
#[derive(Debug, Clone, Copy, PartialEq, Eq, Structural)]
pub enum CompileErrorKind {
    Parse,
    UnsupportedFeature,
    Semantic,
}

/// A compile error as the report needs it: its kind, its text (the
/// message, or the feature's name), its location with the name shown for
/// its source, and its help text (parse errors have none).
#[derive(Debug)]
pub struct CompileFailure {
    pub kind: CompileErrorKind,
    pub text: String,
    pub location: SourceLoc,
    pub display_name: String,
    pub help: Option<String>,
}

/// The title of a compile error: its message, or `unsupported feature: `
/// and the feature's name.
pub open spec fn compile_message(e: CompileFailure) -> Seq<char> {
    match e.kind {
        CompileErrorKind::UnsupportedFeature => "unsupported feature: "@ + e.text@,
        _ => e.text@,
    }
}

/// The help shown after a compile error: a parse error shows none.
pub open spec fn compile_help(e: CompileFailure) -> Option<String> {
    match e.kind {
        CompileErrorKind::Parse => None,
        _ => e.help,
    }
}

/// The groups of a compile error over `src`: the error titled with its
/// message and, where the location points somewhere, its span labelled
/// with the message's label; then its help.
pub open spec fn compile_groups(src: Seq<char>, e: CompileFailure) -> Seq<GroupView> {
    let b = encode_utf8(src);
    let sp = span_spec(b, e.location.byte_offset as int, e.location.byte_len as int);
    seq![GroupView {
        level: ReportLevel::Error,
        title: compile_message(e),
        id: None,
        snippets: if points(e.location) {
            seq![SnippetView {
                source: src,
                path: e.display_name@,
                annotations: seq![AnnotationView { start: sp.0, end: sp.1, label: label_spec(compile_message(e)), primary: true }],
            }]
        } else {
            Seq::empty()
        },
    }] + help_groups(compile_help(e))
}

/// The groups of a compile error.
fn compile_report_groups(err: &CompileFailure, source: &str) -> (r: Vec<ReportGroup>)
    ensures
        groups_view(r@) == compile_groups(source@, *err),
{
    let message = match err.kind {
        CompileErrorKind::UnsupportedFeature => {
            let mut m = String::from_str("unsupported feature: ");
            m.append(err.text.as_str());
            m
        },
        _ => err.text.clone(),
    };
    let help = match err.kind {
        CompileErrorKind::Parse => None,
        _ => match &err.help {
            Some(h) => Some(h.clone()),
            None => None,
        },
    };
    let mut snippets: Vec<ReportSnippet> = Vec::new();
    if err.location.byte_offset > 0 || err.location.line > 0 {
        let (a, e) = annotation_span(source.as_bytes(), err.location.byte_offset, err.location.byte_len);
        let mut anns: Vec<ReportAnnotation> = Vec::new();
        anns.push(ReportAnnotation { start: a, end: e, label: annotation_label(message.as_str()), primary: true });
        assert(anns@.map_values(|x: ReportAnnotation| annotation_view(x)) =~= compile_groups(source@, *err)[0].snippets[0].annotations);
        snippets.push(ReportSnippet { source: source.to_owned(), path: err.display_name.clone(), annotations: anns });
    }
    assert(snippets@.map_values(|x: ReportSnippet| snippet_view(x)) =~= compile_groups(source@, *err)[0].snippets);
    let mut groups: Vec<ReportGroup> = Vec::new();
    groups.push(ReportGroup { level: ReportLevel::Error, title: message, id: None, snippets });
    match help {
        Some(h) => {
            groups.push(ReportGroup { level: ReportLevel::Help, title: h, id: None, snippets: Vec::new() });
            assert(groups_view(groups@)[1].snippets =~= Seq::<SnippetView>::empty());
        },
        None => {},
    }
    assert(groups_view(groups@) =~= compile_groups(source@, *err));
    groups
}

/// Does the compile error render over `source`: do its spans fit?
pub fn compile_error_renders(err: &CompileFailure, source: &str) -> (r: bool)
    ensures
        r == groups_fit(compile_groups(source@, *err)),
{
    let groups = compile_report_groups(err, source);
    groups_fit_exec(groups.as_slice())
}

/// Render a compile error over `source`, with its span underlined where
/// its location points somewhere, and its help.
pub fn render_compile_error(err: &CompileFailure, source: &str, style: RenderStyle) -> (r: String)
    requires
        groups_fit(compile_groups(source@, *err)),
    ensures
        r@ == rendered_groups(compile_groups(source@, *err), is_colored(style)),
{
    let groups = compile_report_groups(err, source);
    render_groups(groups.as_slice(), style)
}

/// Do the diagnostics render over `source`: do the spans of each fit?
pub fn warnings_render(diags: &[WarningDiag], source: &str) -> (r: bool)
    ensures
        r == warnings_fit(source@, diags@),
{
    let n = diags.len();
    let mut i: usize = 0;
    while i < n
        invariant
            n == diags@.len(),
            i <= n,
            forall|j: int| 0 <= j < i ==> groups_fit(#[trigger] warning_groups(source@, diags@[j])),
        decreases n - i,
    {
        let groups = warning_report_groups(source, &diags[i]);
        if !groups_fit_exec(groups.as_slice()) {
            assert(!groups_fit(warning_groups(source@, diags@[i as int])));
            return false;
        }
        i = i + 1;
    }
    true
}

/// Does the runtime error render: do the spans of its report fit its
/// source?
pub fn runtime_error_renders(message: &str, source: &[u8], loc: &Option<SourceLoc>, ctx: Option<VarContext>, hints: &[Hint]) -> (r: bool)
    ensures
        r == runtime_report_fits(message@, source@, *loc, ctx, hints@),
{
    let text = error_source_text(source);
    let head = runtime_head_group(message, source, &text, loc, ctx);
    let mut report: Vec<ReportGroup> = Vec::new();
    report.push(head);
    assert(groups_view(report@) =~= seq![runtime_head(message@, source@, *loc, ctx)]);
    if !groups_fit_exec(report.as_slice()) {
        return false;
    }
    let n = hints.len();
    let mut i: usize = 0;
    while i < n
        invariant
            n == hints@.len(),
            i <= n,
            text is Some <==> error_source(source@).len() > 0,
            text matches Some(t) ==> t@ == decode_utf8(source@) && valid_utf8(source@),
            forall|j: int| 0 <= j < i ==> groups_fit(seq![#[trigger] hint_group(source@, hints@[j])]),
        decreases n - i,
    {
        let g = hint_report_group(source, &text, &hints[i]);
        let mut one: Vec<ReportGroup> = Vec::new();
        one.push(g);
        assert(groups_view(one@) =~= seq![hint_group(source@, hints@[i as int])]);
        if !groups_fit_exec(one.as_slice()) {
            return false;
        }
        i = i + 1;
    }
    true
}

} // verus!
