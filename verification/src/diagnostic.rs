//! Compiler diagnostics and the context that records them.
//!
//! Every diagnostic of a compilation flows through one [`DiagCtxt`], which
//! keeps them in emission order and counts errors and warnings; rendering
//! them is left to whoever drains the context.

use vstd::prelude::*;
use crate::span::Span;

verus! {

/// Severity of a diagnostic.
#[derive(Clone, Copy, Debug, PartialEq, Eq, Structural)]
pub enum Level {
    Error,
    Warning,
    Note,
}

/// A message about the source, with an optional location, code, note and
/// labelled spans.
#[derive(Clone, Debug)]
pub struct Diagnostic {
    pub level: Level,
    pub message: String,
    pub code: Option<String>,
    pub note: Option<String>,
    pub labels: Vec<(Span, String)>,
    pub loc: Option<Span>,
}

/// Proof that an error diagnostic was recorded in a [`DiagCtxt`].
#[derive(Clone, Copy, Debug, PartialEq, Eq, Structural)]
pub struct ErrorGuaranteed {
    witness: bool,
}

impl ErrorGuaranteed {
    /// Whether this is a guarantee made where an error was recorded (the
    /// only kind there is).
    pub closed spec fn is_issued(self) -> bool {
        self.witness
    }

    pub(crate) fn new() -> (g: ErrorGuaranteed)
        ensures
            g.is_issued(),
    {
        ErrorGuaranteed { witness: true }
    }
}

impl Diagnostic {
    /// A diagnostic of the given level located at `loc`, with no labels.
    pub fn new(level: Level, loc: Option<Span>, message: String) -> (d: Diagnostic)
        ensures
            d.level == level,
            d.loc == loc,
            d.message@ == message@,
            d.code is None,
            d.note is None,
            d.labels@.len() == 0,
    {
        Diagnostic { level, message, code: None, note: None, labels: Vec::new(), loc }
    }

    /// An error located at `loc`.
    pub fn error(loc: Span, message: String) -> (d: Diagnostic)
        ensures
            d.level == Level::Error,
            d.loc == Some(loc),
            d.message@ == message@,
            d.code is None,
            d.note is None,
            d.labels@.len() == 0,
    {
        Diagnostic::new(Level::Error, Some(loc), message)
    }

    /// An error that points at no place in the source.
    pub fn error_no_span(message: String) -> (d: Diagnostic)
        ensures
            d.level == Level::Error,
            d.loc is None,
            d.message@ == message@,
            d.code is None,
            d.note is None,
            d.labels@.len() == 0,
    {
        Diagnostic::new(Level::Error, None, message)
    }

    /// Adds a label on the diagnostic's own location (or on the empty span at
    /// offset 0 when it has none).
    pub fn with_primary_label(self, message: String) -> (d: Diagnostic)
        ensures
            d.level == self.level,
            d.loc == self.loc,
            d.message == self.message,
            d.code == self.code,
            d.note == self.note,
            d.labels@ == self.labels@.push((
                match self.loc { Some(l) => l, None => Span { lo: 0, hi: 0 } },
                message,
            )),
    {
        let span = match self.loc { Some(l) => l, None => Span::dummy() };
        self.with_label(span, message)
    }

    /// Adds a label on an arbitrary span.
    pub fn with_label(self, span: Span, message: String) -> (d: Diagnostic)
        ensures
            d.level == self.level,
            d.loc == self.loc,
            d.message == self.message,
            d.code == self.code,
            d.note == self.note,
            d.labels@ == self.labels@.push((span, message)),
    {
        let mut d = self;
        d.labels.push((span, message));
        d
    }

    /// Sets the note.
    pub fn with_note(self, note: String) -> (d: Diagnostic)
        ensures
            d.level == self.level,
            d.loc == self.loc,
            d.message == self.message,
            d.code == self.code,
            d.note == Some(note),
            d.labels == self.labels,
    {
        let mut d = self;
        d.note = Some(note);
        d
    }

    /// Sets the code.
    pub fn with_code(self, code: String) -> (d: Diagnostic)
        ensures
            d.level == self.level,
            d.loc == self.loc,
            d.message == self.message,
            d.code == Some(code),
            d.note == self.note,
            d.labels == self.labels,
    {
        let mut d = self;
        d.code = Some(code);
        d
    }
}

/// Number of diagnostics of `level` in `s`.
pub open spec fn count_level(s: Seq<Diagnostic>, level: Level) -> nat
    decreases s.len(),
{
    if s.len() == 0 {
        0
    } else {
        count_level(s.drop_last(), level) + if s.last().level == level { 1nat } else { 0nat }
    }
}

proof fn lemma_count_level_le(s: Seq<Diagnostic>, level: Level)
    ensures
        count_level(s, level) <= s.len(),
    decreases s.len(),
{
    if s.len() > 0 {
        lemma_count_level_le(s.drop_last(), level);
    }
}

/// Emitting a diagnostic adds one to the count of its level and leaves the
/// counts of the other levels as they were.
pub proof fn lemma_count_level_push(s: Seq<Diagnostic>, d: Diagnostic, level: Level)
    ensures
        count_level(s.push(d), level) == count_level(s, level) + if d.level == level { 1nat } else { 0nat },
{
    assert(s.push(d).drop_last() =~= s);
}

/// Records diagnostics into a buffer instead of printing them.
#[derive(Debug)]
pub struct BufferEmitter {
    buffer: Vec<Diagnostic>,
}

impl BufferEmitter {
    pub closed spec fn view(&self) -> Seq<Diagnostic> {
        self.buffer@
    }

    pub fn new() -> (b: BufferEmitter)
        ensures
            b.view().len() == 0,
    {
        BufferEmitter { buffer: Vec::new() }
    }

    /// Records one diagnostic.
    pub fn emit(&mut self, diag: Diagnostic)
        ensures
            final(self).view() == old(self).view().push(diag),
    {
        self.buffer.push(diag);
    }

    /// Drains everything recorded so far, leaving the buffer empty.
    pub fn take(&mut self) -> (v: Vec<Diagnostic>)
        ensures
            v@ == old(self).view(),
            final(self).view().len() == 0,
    {
        let mut out = Vec::new();
        std::mem::swap(&mut out, &mut self.buffer);
        out
    }

    /// Number of diagnostics currently buffered.
    pub fn len(&self) -> (n: usize)
        ensures
            n == self.view().len(),
    {
        self.buffer.len()
    }

    pub fn is_empty(&self) -> (b: bool)
        ensures
            b == (self.view().len() == 0),
    {
        self.buffer.len() == 0
    }
}

/// The diagnostic context of one compilation: records every emitted
/// diagnostic in order and keeps the error and warning counts.
pub struct DiagCtxt {
    emitter: BufferEmitter,
    errors: usize,
    warnings: usize,
}

impl DiagCtxt {
    #[verifier::type_invariant]
    spec fn counts_agree(self) -> bool {
        &&& self.errors == count_level(self.emitter.view(), Level::Error)
        &&& self.warnings == count_level(self.emitter.view(), Level::Warning)
    }

    /// Every diagnostic emitted so far, oldest first.
    pub closed spec fn emitted(self) -> Seq<Diagnostic> {
        self.emitter.view()
    }

    pub fn new() -> (d: DiagCtxt)
        ensures
            d.emitted().len() == 0,
    {
        DiagCtxt { emitter: BufferEmitter::new(), errors: 0, warnings: 0 }
    }

    /// Records `diag`; returns the proof of an error when it is one.
    pub fn emit(&mut self, diag: Diagnostic) -> (g: Option<ErrorGuaranteed>)
        ensures
            final(self).emitted() == old(self).emitted().push(diag),
            g is Some <==> diag.level == Level::Error,
            g matches Some(e) ==> e.is_issued(),
    {
        proof {
            use_type_invariant(&*self);
            lemma_count_level_push(self.emitter.view(), diag, Level::Error);
            lemma_count_level_push(self.emitter.view(), diag, Level::Warning);
            lemma_count_level_le(self.emitter.view().push(diag), Level::Error);
            lemma_count_level_le(self.emitter.view().push(diag), Level::Warning);
        }
        let level = diag.level;
        let mut current = DiagCtxt::new();
        std::mem::swap(&mut current, self);
        let DiagCtxt { mut emitter, errors, warnings } = current;
        emitter.emit(diag);
        let n = emitter.len();
        let errors = match level { Level::Error => errors + 1, _ => errors };
        let warnings = match level { Level::Warning => warnings + 1, _ => warnings };
        *self = DiagCtxt { emitter, errors, warnings };
        match level {
            Level::Error => Some(ErrorGuaranteed::new()),
            _ => None,
        }
    }

    /// Records an error diagnostic.
    pub fn emit_error(&mut self, diag: Diagnostic) -> (g: ErrorGuaranteed)
        requires
            diag.level == Level::Error,
        ensures
            final(self).emitted() == old(self).emitted().push(diag),
            g.is_issued(),
    {
        match self.emit(diag) {
            Some(g) => g,
            None => ErrorGuaranteed::new(),
        }
    }

    /// Number of error diagnostics emitted so far.
    pub fn err_count(&self) -> (n: usize)
        ensures
            n == count_level(self.emitted(), Level::Error),
    {
        proof { use_type_invariant(self); }
        self.errors
    }

    /// Number of warning diagnostics emitted so far.
    pub fn warn_count(&self) -> (n: usize)
        ensures
            n == count_level(self.emitted(), Level::Warning),
    {
        proof { use_type_invariant(self); }
        self.warnings
    }

    /// Some proof of an error when at least one error was emitted.
    pub fn has_errors(&self) -> (g: Option<ErrorGuaranteed>)
        ensures
            g is Some <==> count_level(self.emitted(), Level::Error) > 0,
            g matches Some(e) ==> e.is_issued(),
    {
        proof { use_type_invariant(self); }
        if self.errors > 0 { Some(ErrorGuaranteed::new()) } else { None }
    }

    /// The recorded diagnostics, oldest first, for rendering.
    pub fn diagnostics(&self) -> (v: &Vec<Diagnostic>)
        ensures
            v@ == self.emitted(),
    {
        &self.emitter.buffer
    }
}

/// A debug-time guard that must be defused before it goes out of scope.
#[derive(Debug)]
pub struct DropBomb {
    armed: bool,
    message: &'static str,
}

impl DropBomb {
    pub closed spec fn is_armed(&self) -> bool {
        self.armed
    }

    pub fn new(message: &'static str) -> (b: DropBomb)
        ensures
            b.is_armed(),
    {
        DropBomb { armed: true, message }
    }

    pub fn defuse(&mut self)
        ensures
            !final(self).is_armed(),
    {
        self.armed = false;
    }

    /// Whether the bomb would still go off.
    pub fn armed(&self) -> (b: bool)
        ensures
            b == self.is_armed(),
    {
        self.armed
    }
}

} // verus!
