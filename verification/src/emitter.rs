//! Turning a diagnostic into a report: the kind of report, and where in
//! which file its message and labels point. Drawing the report (with
//! source snippets) is left to the renderer.

use vstd::prelude::*;
use crate::cache::EtaCache;
use crate::diagnostic::{Diagnostic, Level};
use crate::source_map::{owner, FileId};
use crate::span::Span;

verus! {

/// The kind of a rendered report.
#[derive(Debug, Clone, Copy, PartialEq, Eq, Structural)]
pub enum ReportKind {
    Error,
    Warning,
    Advice,
}

/// The report kind of a diagnostic level: notes become advice.
pub open spec fn kind_of(level: Level) -> ReportKind {
    match level {
        Level::Error => ReportKind::Error,
        Level::Warning => ReportKind::Warning,
        Level::Note => ReportKind::Advice,
    }
}

/// A place in one file: its id and a local byte range, or no file at all
/// (`None`, rendered as an empty placeholder source).
#[derive(Debug, Clone, PartialEq, Eq)]
pub struct Place {
    pub file: Option<FileId>,
    pub start: u32,
    pub end: u32,
}

/// A label of a report.
#[derive(Debug)]
pub struct LabelPlan {
    pub place: Place,
    pub message: String,
}

/// Everything a renderer needs to draw a diagnostic.
#[derive(Debug)]
pub struct ReportPlan {
    pub kind: ReportKind,
    pub place: Place,
    pub message: String,
    pub code: Option<String>,
    pub note: Option<String>,
    pub labels: Vec<LabelPlan>,
}

/// Renders reports to a writer; see [`plan`] for what is drawn.
#[derive(Debug, Clone, Copy)]
pub struct IoEmitter<W> {
    pub writer: W,
}

impl<W> IoEmitter<W> {
    pub fn new(writer: W) -> (e: IoEmitter<W>)
        ensures
            e.writer == writer,
    {
        IoEmitter { writer }
    }
}

/// Whether `span` lies in one loaded file of `cache`.
pub open spec fn resolvable(cache: EtaCache, span: Span) -> bool {
    &&& cache.sources.files().len() > 0
    &&& span.lo <= span.hi
    &&& cache.sources.files()[owner(cache.sources.files(), span.lo as int)].base <= span.lo
}

/// The file and local range of a resolvable span.
pub open spec fn place_of(cache: EtaCache, span: Span) -> Place {
    let e = cache.sources.files()[owner(cache.sources.files(), span.lo as int)];
    Place { file: Some(e.id), start: (span.lo - e.base) as u32, end: (span.hi - e.base) as u32 }
}

/// The place of a diagnostic without a location.
pub open spec fn nowhere() -> Place {
    Place { file: None, start: 0, end: 0 }
}

/// Whether every span of `d` can be placed: when it has a location, that
/// location and every label lie in loaded files.
pub open spec fn placeable(cache: EtaCache, d: Diagnostic) -> bool {
    d.loc matches Some(loc) ==> {
        &&& resolvable(cache, loc)
        &&& forall|i: int| 0 <= i < d.labels@.len() ==> resolvable(cache, #[trigger] d.labels@[i].0)
    }
}

/// `p` is how `d` is drawn: a diagnostic with a location points into the
/// files its spans lie in; one without points nowhere, its labels too.
pub open spec fn plans(cache: EtaCache, d: Diagnostic, p: ReportPlan) -> bool {
    &&& p.kind == kind_of(d.level)
    &&& p.message@ == d.message@
    &&& p.code == d.code
    &&& p.note == d.note
    &&& p.labels@.len() == d.labels@.len()
    &&& forall|i: int| 0 <= i < d.labels@.len() ==> (#[trigger] p.labels@[i]).message@ == d.labels@[i].1@
    &&& match d.loc {
        Some(loc) => {
            &&& p.place == place_of(cache, loc)
            &&& forall|i: int| 0 <= i < d.labels@.len() ==> (#[trigger] p.labels@[i]).place == place_of(cache, d.labels@[i].0)
        },
        None => {
            &&& p.place == nowhere()
            &&& forall|i: int| 0 <= i < d.labels@.len() ==> (#[trigger] p.labels@[i]).place == nowhere()
        },
    }
}

/// Whether `span` lies in one loaded file of `cache`.
pub fn can_resolve(cache: &EtaCache, span: Span) -> (b: bool)
    ensures
        b == resolvable(*cache, span),
{
    span.lo <= span.hi && cache.sources.covers(span.lo)
}

/// Whether every span of `diag` can be placed (see [`placeable`]).
pub fn can_plan(cache: &EtaCache, diag: &Diagnostic) -> (b: bool)
    ensures
        b == placeable(*cache, *diag),
{
    match diag.loc {
        None => true,
        Some(loc) => {
            if !can_resolve(cache, loc) {
                return false;
            }
            let mut i: usize = 0;
            while i < diag.labels.len()
                invariant
                    i <= diag.labels@.len(),
                    diag.loc == Some(loc),
                    resolvable(*cache, loc),
                    forall|k: int| 0 <= k < i ==> resolvable(*cache, #[trigger] diag.labels@[k].0),
                decreases diag.labels.len() - i,
            {
                if !can_resolve(cache, diag.labels[i].0) {
                    assert(!resolvable(*cache, diag.labels@[i as int].0));
                    return false;
                }
                i = i + 1;
            }
            true
        }
    }
}

fn place(cache: &EtaCache, span: Span) -> (p: Place)
    requires
        resolvable(*cache, span),
    ensures
        p == place_of(*cache, span),
{
    let (range, file) = cache.resolve_span(span);
    Place { file: Some(file), start: range.start, end: range.end }
}

/// Plans the report of `diag`.
pub fn plan(cache: &EtaCache, diag: Diagnostic) -> (p: ReportPlan)
    requires
        placeable(*cache, diag),
    ensures
        plans(*cache, diag, p),
{
    let kind = match diag.level {
        Level::Error => ReportKind::Error,
        Level::Warning => ReportKind::Warning,
        Level::Note => ReportKind::Advice,
    };
    let ghost d = diag;
    let Diagnostic { level: _, message, code, note, labels, loc } = diag;
    let main = match loc {
        Some(l) => place(cache, l),
        None => Place { file: None, start: 0, end: 0 },
    };
    let mut planned: Vec<LabelPlan> = Vec::new();
    let rest = labels;
    let ghost all = rest@;
    let n = rest.len();
    let mut i: usize = 0;
    while i < n
        invariant
            n == all.len(),
            all == d.labels@,
            rest@ == all,
            loc == d.loc,
            placeable(*cache, d),
            i <= n,
            planned@.len() == i,
            forall|k: int| 0 <= k < i ==> (#[trigger] planned@[k]).message@ == all[k].1@,
            forall|k: int| 0 <= k < i ==> (#[trigger] planned@[k]).place == (match loc {
                Some(_) => place_of(*cache, all[k].0),
                None => nowhere(),
            }),
        decreases n - i,
    {
        let span = rest[i].0;
        let message = rest[i].1.clone();
        let where_ = match loc {
            Some(_) => {
                assert(resolvable(*cache, d.labels@[i as int].0));
                place(cache, span)
            },
            None => Place { file: None, start: 0, end: 0 },
        };
        planned.push(LabelPlan { place: where_, message });
        i = i + 1;
    }
    ReportPlan { kind, place: main, message, code, note, labels: planned }
}

/// `d`, or, when some span of it lies in no loaded file, `d` without its
/// location, so that it is reported without source.
pub open spec fn reportable(cache: EtaCache, d: Diagnostic) -> Diagnostic {
    if placeable(cache, d) {
        d
    } else {
        Diagnostic { loc: None, ..d }
    }
}

/// Plans the report of any diagnostic of the compilation: one whose spans
/// are not all in a loaded file is planned without its location.
pub fn plan_any(cache: &EtaCache, diag: Diagnostic) -> (p: ReportPlan)
    ensures
        plans(*cache, reportable(*cache, diag), p),
{
    if can_plan(cache, &diag) {
        plan(cache, diag)
    } else {
        let Diagnostic { level, message, code, note, labels, loc: _ } = diag;
        plan(cache, Diagnostic { level, message, code, note, labels, loc: None })
    }
}

} // verus!
