//! Decisions of the compiler driver: how a command-line path is classified,
//! where the interface of a `use` is looked for, how a failed load is
//! reported, and what a compilation's outcome is.
//!
//! Every diagnostic of a compilation goes through one [`DiagCtxt`]; the
//! outcome is read off its counts.

use vstd::prelude::*;
use vstd::string::StringSliceAdditionalSpecFns;
use vstd::utf8::encode_utf8;
use crate::cache::EtaCache;
use crate::diagnostic::{count_level, DiagCtxt, Diagnostic, ErrorGuaranteed, Level};
use crate::lexer::{lemma_step_moves_forward, lexical_errors, next_step, reports_each, LexStep, Lexer};
use crate::lexlog::{lex_log, lex_log_from};
use crate::resolve::{extension_kind, load, loads, path_extension, path_join, path_parent, read_gave, resolve_against, spec_resolve_against, std_path_eq,
    std_path_extension, std_path_join, texts, use_dir, File};
use crate::session::{no_separator, std_path_with_extension, Flags, Logger};
use crate::source_map::{byte_len, FileId, FileNames, InterfaceId, SourceId};
use crate::span::Span;

verus! {

/// Why a file is being loaded: it was named on the command line, or a
/// `use` at this span requires it.
#[derive(Debug, Clone, Copy, PartialEq, Eq, Structural)]
pub enum LoadBlame {
    CommandLine,
    Use(Span),
}

/// A compilation that did not succeed, with its diagnostic counts.
#[derive(Debug)]
pub struct CompilationFailure {
    pub errors: usize,
    pub warnings: usize,
}

impl CompilationFailure {
    /// The counts of `value`.
    pub fn from(value: &DiagCtxt) -> (f: CompilationFailure)
        ensures
            f.errors == count_level(value.emitted(), Level::Error),
            f.warnings == count_level(value.emitted(), Level::Warning),
    {
        CompilationFailure { errors: value.err_count(), warnings: value.warn_count() }
    }
}

/// A compilation that succeeded, with its warning count.
#[derive(Debug)]
pub struct CompilationSuccess {
    pub warnings: usize,
}

impl CompilationSuccess {
    /// The warning count of `value`.
    pub fn from(value: &DiagCtxt) -> (s: CompilationSuccess)
        ensures
            s.warnings == count_level(value.emitted(), Level::Warning),
    {
        CompilationSuccess { warnings: value.warn_count() }
    }
}

/// The outcome of a compilation whose diagnostics are in `dcx`: a failure
/// exactly when an error was emitted.
pub fn outcome(dcx: &DiagCtxt) -> (r: Result<CompilationSuccess, CompilationFailure>)
    ensures
        r is Err <==> count_level(dcx.emitted(), Level::Error) > 0,
        r matches Ok(s) ==> s.warnings == count_level(dcx.emitted(), Level::Warning),
        r matches Err(f) ==> f.errors == count_level(dcx.emitted(), Level::Error)
            && f.warnings == count_level(dcx.emitted(), Level::Warning),
{
    match dcx.has_errors() {
        Some(_) => Err(CompilationFailure::from(dcx)),
        None => Ok(CompilationSuccess::from(dcx)),
    }
}

/// The message for a path whose extension is neither `eta` nor `eti`.
pub open spec fn unknown_extension_message(ext: Seq<char>) -> Seq<char> {
    "unknown file type "@ + ext
}

/// How a command-line path is classified: `Ok(true)` for an interface,
/// `Ok(false)` for a program, or the error message.
pub open spec fn classify_path(path: Seq<char>) -> Result<bool, Seq<char>> {
    match std_path_extension(path) {
        Some(e) => if e == "eta"@ { Ok(false) } else if e == "eti"@ { Ok(true) } else { Err(unknown_extension_message(e)) },
        None => Err(unknown_extension_message(Seq::empty())),
    }
}

/// Classifies a path named on the command line by its extension and
/// interns it; an unknown extension is reported to `dcx`.
pub fn parse_path(dcx: &mut DiagCtxt, names: &mut FileNames, file: &str) -> (r: Result<File, ErrorGuaranteed>)
    requires
        old(names).names().len() < u32::MAX,
    ensures
        match classify_path(file@) {
            Ok(is_interface) => {
                &&& final(dcx).emitted() == old(dcx).emitted()
                &&& r matches Ok(f) && f == File::of(f.id(), is_interface)
                &&& final(names).names()[r->Ok_0.id().index as int] == file@
                &&& r->Ok_0.id().index < final(names).names().len()
                &&& forall|j: int| 0 <= j < final(names).names().len() && final(names).names()[j] == file@
                    ==> j == r->Ok_0.id().index
            },
            Err(msg) => {
                &&& r is Err
                &&& final(names).names() == old(names).names()
                &&& final(dcx).emitted().len() == old(dcx).emitted().len() + 1
                &&& final(dcx).emitted().drop_last() == old(dcx).emitted()
                &&& final(dcx).emitted().last().level == Level::Error
                &&& final(dcx).emitted().last().loc is None
                &&& final(dcx).emitted().last().message@ == msg
            },
        },
        forall|i: int| 0 <= i < old(names).names().len() ==> final(names).names()[i] == old(names).names()[i],
        old(names).names().len() <= final(names).names().len() <= old(names).names().len() + 1,
{
    let ext = path_extension(file);
    let is_interface = match &ext {
        Some(e) => extension_kind(e.as_str()),
        None => None,
    };
    match is_interface {
        Some(is_interface) => {
            let id = FileId::new(names, file).unwrap();
            if is_interface { Ok(File::Interface(id)) } else { Ok(File::Program(id)) }
        }
        None => {
            let mut m = String::from_str("unknown file type ");
            match &ext {
                Some(e) => m.append(e.as_str()),
                None => {}
            }
            let d = Diagnostic::error_no_span(m);
            Err(dcx.emit_error(d))
        }
    }
}

/// The interface a `use sym` in the program `me` names: `sym.eti` in the
/// program's directory.
pub fn find_use_interface(names: &mut FileNames, me: SourceId, sym: &str) -> (r: InterfaceId)
    requires
        me.index < old(names).names().len(),
        old(names).names().len() < u32::MAX,
    ensures
        r.index < final(names).names().len(),
        final(names).names()[r.index as int] == std_path_join(use_dir(old(names).names()[me.index as int]), sym@ + ".eti"@),
        forall|i: int| 0 <= i < old(names).names().len() ==> final(names).names()[i] == old(names).names()[i],
{
    let dir = match path_parent(me.as_str(names)) {
        Some(p) => p,
        None => String::new(),
    };
    let mut file_name = String::from_str(sym);
    file_name.append(".eti");
    let path = path_join(dir.as_str(), file_name.as_str());
    FileId::new(names, path.as_str()).unwrap()
}

/// The message for an interface that a `use` requires but that could not
/// be read.
pub open spec fn interface_load_message(file: Seq<char>, io_message: Seq<char>) -> Seq<char> {
    "cannot load interface file `"@ + file + "`: "@ + io_message
}

/// The diagnostic for a file that could not be read: the I/O error itself
/// for a command-line file, or an error blamed on the `use` that required
/// the interface.
pub fn load_error(blame: LoadBlame, file: &str, io_message: &str) -> (d: Diagnostic)
    ensures
        d.level == Level::Error,
        match blame {
            LoadBlame::CommandLine => {
                &&& d.loc is None
                &&& d.message@ == io_message@
                &&& d.labels@.len() == 0
            },
            LoadBlame::Use(span) => {
                &&& d.loc == Some(span)
                &&& d.message@ == interface_load_message(file@, io_message@)
                &&& d.labels@.len() == 1
                &&& d.labels@[0].0 == span
                &&& d.labels@[0].1@ == "required by this `use`"@
            },
        },
{
    match blame {
        LoadBlame::CommandLine => Diagnostic::error_no_span(String::from_str(io_message)),
        LoadBlame::Use(span) => {
            let mut m = String::from_str("cannot load interface file `");
            m.append(file);
            m.append("`: ");
            m.append(io_message);
            Diagnostic::error(span, m).with_primary_label(String::from_str("required by this `use`"))
        }
    }
}

/// Lexes `text`, placed at `base` in the global source space, and reports
/// every lexical error to `dcx`, in order. With no parser in this front
/// end, tokens are only checked, not kept.
pub fn report_lexical_errors(dcx: &mut DiagCtxt, text: &str, base: usize)
    requires
        base + text.spec_bytes().len() <= u32::MAX,
    ensures
        final(dcx).emitted().len() >= old(dcx).emitted().len(),
        final(dcx).emitted().subrange(0, old(dcx).emitted().len() as int) == old(dcx).emitted(),
        reports_each(final(dcx).emitted().subrange(old(dcx).emitted().len() as int, final(dcx).emitted().len() as int),
            lexical_errors(text.spec_bytes(), 0), base as int),
{
    let ghost s = text.spec_bytes();
    let ghost d0 = dcx.emitted();
    let ghost mut errs: Seq<crate::lexer::LexError> = seq![];
    let mut lexer = Lexer::new(base, text);
    loop
        invariant
            lexer.source() == s,
            lexer.base() == base,
            0 <= lexer.position() <= s.len(),
            errs + lexical_errors(s, lexer.position()) == lexical_errors(s, 0),
            dcx.emitted().len() == d0.len() + errs.len(),
            dcx.emitted().subrange(0, d0.len() as int) == d0,
            reports_each(dcx.emitted().subrange(d0.len() as int, dcx.emitted().len() as int), errs, base as int),
        ensures
            errs == lexical_errors(s, 0),
            dcx.emitted().len() == d0.len() + errs.len(),
            dcx.emitted().subrange(0, d0.len() as int) == d0,
            reports_each(dcx.emitted().subrange(d0.len() as int, dcx.emitted().len() as int), errs, base as int),
        decreases s.len() - lexer.position(),
    {
        let ghost i = lexer.position();
        proof { lemma_step_moves_forward(s, i); }
        match lexer.next() {
            None => {
                assert(errs + Seq::<crate::lexer::LexError>::empty() =~= errs);
                break;
            }
            Some(Ok(_)) => {}
            Some(Err(d)) => {
                let ghost err = next_step(s, i).unwrap()->err;
                let ghost before = dcx.emitted();
                dcx.emit(d);
                proof {
                    assert(errs + lexical_errors(s, i) =~= errs.push(err) + lexical_errors(s, lexer.position()));
                    errs = errs.push(err);
                    let ds = dcx.emitted().subrange(d0.len() as int, dcx.emitted().len() as int);
                    assert(ds =~= before.subrange(d0.len() as int, before.len() as int).push(d));
                    assert(dcx.emitted().subrange(0, d0.len() as int) =~= before.subrange(0, d0.len() as int));
                }
            }
        }
    }
}

/// What checking one command-line file does, for the result `lr` of loading
/// it: a load error is reported; a loaded file's lexical errors are all
/// reported, and its `--lex` log is made when `log_lex` asks for it.
pub open spec fn checks_loaded(lr: Result<FileId, Diagnostic>, after: EtaCache, d0: Seq<Diagnostic>, d1: Seq<Diagnostic>,
    log_lex: bool, log: Option<String>) -> bool {
    match lr {
        Err(d) => d1 == d0.push(d) && log is None,
        Ok(id) => {
            let e = after.sources.entry(id);
            &&& d1.len() >= d0.len()
            &&& d1.subrange(0, d0.len() as int) == d0
            &&& reports_each(d1.subrange(d0.len() as int, d1.len() as int), lexical_errors(encode_utf8(e.text), 0), e.base as int)
            &&& log_lex ==> (log matches Some(l) && l@ == lex_log_from(e.text, encode_utf8(e.text), 0))
            &&& !log_lex ==> log is None
        },
    }
}

/// Loading `path` (see [`loads`]) and checking what was loaded (see
/// [`checks_loaded`]).
pub open spec fn checks_file(before: EtaCache, after: EtaCache, d0: Seq<Diagnostic>, d1: Seq<Diagnostic>, path: Seq<char>,
    read: Result<String, String>, log_lex: bool, log: Option<String>) -> bool {
    exists|lr: Result<FileId, Diagnostic>|
        #[trigger] loads(before, after, path, read, lr) && checks_loaded(lr, after, d0, d1, log_lex, log)
}

/// Loads a command-line file, whose read gave `read`, and lexes it,
/// reporting every problem to `dcx`; gives its `--lex` log when `log_lex`.
pub fn check_file(cache: &mut EtaCache, dcx: &mut DiagCtxt, path: &str, read: Result<String, String>, log_lex: bool)
    -> (log: Option<String>)
    ensures
        checks_file(*old(cache), *final(cache), old(dcx).emitted(), final(dcx).emitted(), path@, read, log_lex, log),
{
    let ghost c0 = *cache;
    let ghost rd = read;
    let ghost d0 = dcx.emitted();
    let lr = load(cache, path, read);
    let log = match lr {
        Err(d) => {
            dcx.emit(d);
            None
        }
        Ok(id) => {
            let base = cache.base_offset(id);
            let text = cache.source_text(id);
            proof {
                assert(text.spec_bytes() == encode_utf8(cache.sources.entry(id).text));
            }
            report_lexical_errors(dcx, text, base);
            if log_lex {
                Some(lex_log(text))
            } else {
                None
            }
        }
    };
    assert(loads(c0, *cache, path@, rd, lr));
    assert(checks_loaded(lr, *cache, d0, dcx.emitted(), log_lex, log));
    log
}

/// `s` without the repetitions of earlier elements, in first-mention order.
pub open spec fn first_mentions(s: Seq<Seq<char>>) -> Seq<Seq<char>>
    decreases s.len(),
{
    if s.len() == 0 {
        seq![]
    } else {
        let d = first_mentions(s.drop_last());
        if d.contains(s.last()) { d } else { d.push(s.last()) }
    }
}

/// Index of the first path that is not a program or an interface.
pub open spec fn first_unusable(paths: Seq<Seq<char>>) -> Option<int>
    decreases paths.len(),
{
    if paths.len() == 0 {
        None
    } else {
        match first_unusable(paths.drop_last()) {
            Some(k) => Some(k),
            None => if classify_path(paths.last()) is Err { Some(paths.len() - 1) } else { None },
        }
    }
}

/// Classifies every command-line path, stopping at the first unusable one,
/// which is reported; gives each file once, in first-mention order.
pub fn plan_files(dcx: &mut DiagCtxt, names: &mut FileNames, paths: &Vec<String>) -> (r: Result<Vec<File>, ErrorGuaranteed>)
    requires
        old(names).names().len() + paths@.len() < u32::MAX,
    ensures
        forall|i: int| 0 <= i < old(names).names().len() ==> final(names).names()[i] == old(names).names()[i],
        match first_unusable(texts(paths@)) {
            Some(k) => {
                &&& r is Err
                &&& final(dcx).emitted().len() == old(dcx).emitted().len() + 1
                &&& final(dcx).emitted().drop_last() == old(dcx).emitted()
                &&& final(dcx).emitted().last().level == Level::Error
                &&& final(dcx).emitted().last().loc is None
                &&& final(dcx).emitted().last().message@ == classify_path(paths@[k]@)->Err_0
            },
            None => {
                &&& final(dcx).emitted() == old(dcx).emitted()
                &&& r matches Ok(files)
                &&& files@.len() == first_mentions(texts(paths@)).len()
                &&& forall|k: int| 0 <= k < files@.len() ==> {
                    &&& (#[trigger] files@[k]).id().index < final(names).names().len()
                    &&& final(names).names()[files@[k].id().index as int] == first_mentions(texts(paths@))[k]
                    &&& files@[k] == File::of(files@[k].id(), classify_path(first_mentions(texts(paths@))[k])->Ok_0)
                }
            },
        },
{
    let ghost ps = texts(paths@);
    let mut files: Vec<File> = Vec::new();
    let mut i: usize = 0;
    while i < paths.len()
        invariant
            i <= paths@.len(),
            ps == texts(paths@),
            names.names().len() <= old(names).names().len() + i,
            old(names).names().len() + paths@.len() < u32::MAX,
            forall|j: int| 0 <= j < old(names).names().len() ==> names.names()[j] == old(names).names()[j],
            first_unusable(ps.subrange(0, i as int)) is None,
            dcx.emitted() == old(dcx).emitted(),
            files@.len() == first_mentions(ps.subrange(0, i as int)).len(),
            forall|k: int| 0 <= k < files@.len() ==> {
                &&& (#[trigger] files@[k]).id().index < names.names().len()
                &&& names.names()[files@[k].id().index as int] == first_mentions(ps.subrange(0, i as int))[k]
                &&& files@[k] == File::of(files@[k].id(), classify_path(first_mentions(ps.subrange(0, i as int))[k])->Ok_0)
            },
            names.names().len() >= old(names).names().len(),
        decreases paths.len() - i,
    {
        let ghost pre = ps.subrange(0, i as int);
        let ghost next = ps.subrange(0, i + 1);
        proof {
            assert(next.drop_last() =~= pre);
            assert(next.last() == paths@[i as int]@);
        }
        match parse_path(dcx, names, paths[i].as_str()) {
            Err(g) => {
                proof {
                    assert(first_unusable(next) == Some(i as int));
                    lemma_first_unusable_prefix(ps, i as int + 1);
                }
                return Err(g);
            }
            Ok(f) => {
                let ghost n = paths@[i as int]@;
                let mut seen = false;
                let mut j: usize = 0;
                while j < files.len() && !seen
                    invariant
                        j <= files@.len(),
                        seen ==> j < files@.len() && files@[j as int] == f,
                        !seen ==> forall|k: int| 0 <= k < j ==> files@[k] != f,
                    decreases files.len() - j + (if seen { 0int } else { 1int }),
                {
                    if files[j] == f {
                        seen = true;
                    } else {
                        j = j + 1;
                    }
                }
                proof {
                    let fm = first_mentions(pre);
                    if seen {
                        assert(fm[j as int] == n);
                        assert(fm.contains(n));
                        assert(first_mentions(next) == fm);
                    } else {
                        if fm.contains(n) {
                            let k = choose|k: int| 0 <= k < fm.len() && fm[k] == n;
                            assert(files@[k].id().index == f.id().index);
                            assert(files@[k].id() == f.id());
                            assert(files@[k] == f);
                        }
                        assert(first_mentions(next) == fm.push(n));
                    }
                }
                if !seen {
                    files.push(f);
                }
                i = i + 1;
            }
        }
    }
    proof {
        assert(ps.subrange(0, paths@.len() as int) =~= ps);
    }
    Ok(files)
}

/// The first unusable path is one of the paths.
proof fn lemma_first_unusable_in_range(ps: Seq<Seq<char>>)
    ensures
        first_unusable(ps) matches Some(k) ==> 0 <= k < ps.len(),
    decreases ps.len(),
{
    if ps.len() > 0 {
        lemma_first_unusable_in_range(ps.drop_last());
    }
}

/// The first unusable path of a list is that of any list it begins.
proof fn lemma_first_unusable_prefix(ps: Seq<Seq<char>>, n: int)
    requires
        0 <= n <= ps.len(),
        first_unusable(ps.subrange(0, n)) is Some,
    ensures
        first_unusable(ps) == first_unusable(ps.subrange(0, n)),
    decreases ps.len() - n,
{
    if n < ps.len() {
        assert(ps.subrange(0, n + 1).drop_last() =~= ps.subrange(0, n));
        lemma_first_unusable_prefix(ps, n + 1);
    } else {
        assert(ps.subrange(0, n) =~= ps);
    }
}

/// Everything a compilation produced: its sources, diagnostics, `--lex`
/// logs (where each goes — `None` for standard output — and its text), and
/// its outcome.
pub struct Compilation {
    pub cache: EtaCache,
    pub names: FileNames,
    pub dcx: DiagCtxt,
    pub lex_logs: Vec<(Option<String>, String)>,
    pub outcome: Result<CompilationSuccess, CompilationFailure>,
}

/// Where the `--lex` log of the file `path` goes, for the diagnostic path
/// `diag_path`: `None` for standard output.
pub open spec fn log_target(diag_path: Seq<char>, path: Seq<char>) -> Option<Seq<char>> {
    if std_path_eq(diag_path, "-"@) {
        None
    } else {
        Some(std_path_with_extension(std_path_join(diag_path, path), "lexed"@))
    }
}

/// The logs that were made for the files `paths`, in order, each with
/// where it goes.
pub open spec fn made_logs(diag_path: Seq<char>, paths: Seq<Seq<char>>, logs: Seq<Option<String>>) -> Seq<(Option<Seq<char>>, Seq<char>)>
    decreases logs.len(),
{
    if logs.len() == 0 {
        seq![]
    } else {
        let rest = made_logs(diag_path, paths.drop_last(), logs.drop_last());
        match logs.last() {
            Some(l) => rest.push((log_target(diag_path, paths.last()), l@)),
            None => rest,
        }
    }
}

/// A log of a compilation, as seen by specifications.
pub open spec fn log_entry(e: (Option<String>, String)) -> (Option<Seq<char>>, Seq<char>) {
    (match e.0 { Some(t) => Some(t@), None => None }, e.1@)
}

/// Checking the files `paths` one after the other (see [`checks_file`]):
/// `reads[k]` is what `read` gave for the `k`-th path, and `caches` and
/// `diags` are the sources and the diagnostics before each file and after
/// the last one; `logs[k]` is the `--lex` log made for the `k`-th file.
pub open spec fn checks_files<F: Fn(&str) -> Result<String, String>>(read: F, paths: Seq<Seq<char>>, log_lex: bool,
    caches: Seq<EtaCache>, diags: Seq<Seq<Diagnostic>>, reads: Seq<Result<String, String>>, logs: Seq<Option<String>>) -> bool {
    &&& caches.len() == paths.len() + 1
    &&& diags.len() == paths.len() + 1
    &&& reads.len() == paths.len()
    &&& logs.len() == paths.len()
    &&& forall|k: int| 0 <= k < paths.len() ==> #[trigger] read_gave(read, paths[k], reads[k])
    &&& forall|k: int| 0 <= k < paths.len() ==> #[trigger] checks_file(caches[k], caches[k + 1], diags[k], diags[k + 1],
        paths[k], reads[k], log_lex, logs[k])
}

/// Running the front end over the distinct files `paths`, from an empty
/// cache and no diagnostics, ends with `cache`, `emitted` and the logs
/// `made` (see [`made_logs`]).
pub open spec fn runs_over<F: Fn(&str) -> Result<String, String>>(read: F, paths: Seq<Seq<char>>, log_lex: bool,
    diag_path: Seq<char>, cache: EtaCache, emitted: Seq<Diagnostic>, made: Seq<(Option<Seq<char>>, Seq<char>)>) -> bool {
    exists|caches: Seq<EtaCache>, diags: Seq<Seq<Diagnostic>>, reads: Seq<Result<String, String>>, logs: Seq<Option<String>>| {
        &&& #[trigger] checks_files(read, paths, log_lex, caches, diags, reads, logs)
        &&& caches[0].sources.files().len() == 0
        &&& caches[0].sources.names().len() == 0
        &&& caches[0].sources.next_base() == 0
        &&& diags[0].len() == 0
        &&& caches.last() == cache
        &&& diags.last() == emitted
        &&& made_logs(diag_path, paths, logs) == made
    }
}

/// The command-line paths `files`, each resolved against the source root
/// `root` (see [`spec_resolve_against`]).
pub open spec fn resolved_sources(root: Seq<char>, files: Seq<String>) -> Seq<Seq<char>> {
    Seq::new(files.len(), |i: int| spec_resolve_against(root, files[i]@))
}

/// Each command-line path resolved against `--sourcepath`.
fn resolve_sources(flags: &Flags) -> (r: Vec<String>)
    ensures
        texts(r@) == resolved_sources(flags.source_path@, flags.source_files@),
{
    let mut r: Vec<String> = Vec::new();
    let mut i: usize = 0;
    while i < flags.source_files.len()
        invariant
            i <= flags.source_files@.len(),
            r@.len() == i,
            forall|k: int| 0 <= k < i ==> (#[trigger] r@[k])@ == spec_resolve_against(flags.source_path@, flags.source_files@[k]@),
        decreases flags.source_files.len() - i,
    {
        let p = resolve_against(flags.source_path.as_str(), flags.source_files[i].as_str());
        r.push(p);
        i = i + 1;
    }
    assert(texts(r@) =~= resolved_sources(flags.source_path@, flags.source_files@));
    r
}

/// Runs the front end over the files named by `flags`: resolves every
/// relative path against `--sourcepath`, classifies each resolved path
/// (stopping at the first unusable one), then loads each file once, in
/// first-mention order, reading its resolved path with `read` (which gives
/// its text or the I/O error's message), lexes it and reports every
/// problem; a `--lex` log mirrors the resolved path under the diagnostic
/// path. The outcome is a failure exactly when an error was reported.
pub fn run<F: Fn(&str) -> Result<String, String>>(flags: &Flags, read: &F) -> (c: Compilation)
    requires
        flags.source_files@.len() < u32::MAX,
        forall|p: &str| #[trigger] read.requires((p,)),
    ensures
        first_unusable(resolved_sources(flags.source_path@, flags.source_files@)) matches Some(k) ==> {
            &&& c.dcx.emitted().len() == 1
            &&& c.dcx.emitted()[0].level == Level::Error
            &&& c.dcx.emitted()[0].message@ == classify_path(resolved_sources(flags.source_path@, flags.source_files@)[k])->Err_0
            &&& c.cache.sources.files().len() == 0
            &&& c.lex_logs@.len() == 0
        },
        first_unusable(resolved_sources(flags.source_path@, flags.source_files@)) is None ==> runs_over(*read,
            first_mentions(resolved_sources(flags.source_path@, flags.source_files@)),
            flags.lex, flags.diag_path@, c.cache, c.dcx.emitted(), c.lex_logs@.map_values(|e: (Option<String>, String)| log_entry(e))),
        c.outcome is Err <==> count_level(c.dcx.emitted(), Level::Error) > 0,
        c.outcome matches Ok(s) ==> s.warnings == count_level(c.dcx.emitted(), Level::Warning),
        c.outcome matches Err(f) ==> f.errors == count_level(c.dcx.emitted(), Level::Error)
            && f.warnings == count_level(c.dcx.emitted(), Level::Warning),
{
    let mut cache = EtaCache::new();
    let mut names = FileNames::new();
    let mut dcx = DiagCtxt::new();
    let logger = Logger::new(flags);
    let mut lex_logs: Vec<(Option<String>, String)> = Vec::new();
    let sources = resolve_sources(flags);
    let files = match plan_files(&mut dcx, &mut names, &sources) {
        Ok(files) => files,
        Err(_) => {
            proof {
                if let Some(k) = first_unusable(texts(sources@)) {
                    lemma_first_unusable_in_range(texts(sources@));
                    assert(texts(sources@)[k] == sources@[k]@);
                }
                assert(dcx.emitted().drop_last() =~= Seq::<Diagnostic>::empty());
                assert(dcx.emitted()[0] == dcx.emitted().last());
            }
            let outcome = outcome(&dcx);
            return Compilation { cache, names, dcx, lex_logs, outcome };
        }
    };
    let ghost paths = first_mentions(texts(sources@));
    proof {
        reveal_strlit("lexed");
    }
    let ghost mut caches: Seq<EtaCache> = seq![cache];
    let ghost mut diags: Seq<Seq<Diagnostic>> = seq![dcx.emitted()];
    let ghost mut reads: Seq<Result<String, String>> = seq![];
    let ghost mut logs: Seq<Option<String>> = seq![];
    let mut i: usize = 0;
    while i < files.len()
        invariant
            i <= files@.len(),
            files@.len() == paths.len(),
            forall|k: int| 0 <= k < files@.len() ==> (#[trigger] files@[k]).id().index < names.names().len()
                && names.names()[files@[k].id().index as int] == paths[k],
            forall|p: &str| #[trigger] read.requires((p,)),
            checks_files(*read, paths.subrange(0, i as int), flags.lex, caches, diags, reads, logs),
            caches[0].sources.files().len() == 0,
            caches[0].sources.names().len() == 0,
            caches[0].sources.next_base() == 0,
            diags[0].len() == 0,
            caches.last() == cache,
            diags.last() == dcx.emitted(),
            made_logs(flags.diag_path@, paths.subrange(0, i as int), logs)
                == lex_logs@.map_values(|e: (Option<String>, String)| log_entry(e)),
            logger.diag_root() == flags.diag_path@,
            no_separator("lexed"@),
        decreases files.len() - i,
    {
        let id = match files[i] {
            File::Program(id) => id,
            File::Interface(id) => id,
        };
        let path = id.as_str(&names);
        let contents = read(path);
        let ghost rd = contents;
        let log = check_file(&mut cache, &mut dcx, path, contents, flags.lex);
        let ghost lg = log;
        match log {
            Some(text) => lex_logs.push((logger.log_path(path, "lexed"), text)),
            None => {}
        }
        proof {
            let pre = paths.subrange(0, i as int);
            let post = paths.subrange(0, i + 1);
            let caches2 = caches.push(cache);
            let diags2 = diags.push(dcx.emitted());
            let reads2 = reads.push(rd);
            let logs2 = logs.push(lg);
            assert(post[i as int] == path@);
            assert forall|k: int| 0 <= k < post.len() implies #[trigger] read_gave(*read, post[k], reads2[k]) by {
                if k < i {
                    assert(post[k] == pre[k]);
                    assert(reads2[k] == reads[k]);
                    assert(read_gave(*read, pre[k], reads[k]));
                } else {
                    assert(read.ensures((path,), reads2[k]));
                }
            }
            assert forall|k: int| 0 <= k < post.len() implies #[trigger] checks_file(caches2[k], caches2[k + 1], diags2[k], diags2[k + 1],
                post[k], reads2[k], flags.lex, logs2[k]) by {
                if k < i {
                    assert(post[k] == pre[k]);
                    assert(checks_file(caches[k], caches[k + 1], diags[k], diags[k + 1], pre[k], reads[k], flags.lex, logs[k]));
                }
            }
            assert(logs2.drop_last() =~= logs);
            assert(post.drop_last() =~= pre);
            assert(lex_logs@.map_values(|e: (Option<String>, String)| log_entry(e))
                =~= made_logs(flags.diag_path@, post, logs2));
            caches = caches2;
            diags = diags2;
            reads = reads2;
            logs = logs2;
        }
        i = i + 1;
    }
    proof {
        assert(paths.subrange(0, files@.len() as int) =~= paths);
        assert(checks_files(*read, paths, flags.lex, caches, diags, reads, logs));
    }
    let outcome = outcome(&dcx);
    Compilation { cache, names, dcx, lex_logs, outcome }
}

} // verus!
