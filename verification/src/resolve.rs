//! Path resolution: command-line paths become classified files, with
//! relative paths resolved against `--sourcepath`; `use F` declarations
//! become candidate paths `F.eti`, searched next to the using file first and
//! then under `--libpath`; every file is handed out once.
//!
//! Touching the disk is left to the caller: the functions here decide which
//! path to probe or read, through what the caller hands in, and what the
//! outcome means.

use vstd::prelude::*;
use crate::diagnostic::{Diagnostic, Level};
use crate::cache::EtaCache;
use crate::source_map::{byte_len, FileEntry, FileId};
use crate::span::Span;

verus! {

/// `std::path::Path::join` on two UTF-8 paths. This and the other
/// `std_path_*` names are fixed for one target: std splits paths the Unix
/// way on Unix and otherwise on Windows.
pub uninterp spec fn std_path_join(base: Seq<char>, path: Seq<char>) -> Seq<char>;

/// `std::path::Path::is_absolute` on a UTF-8 path.
pub uninterp spec fn std_path_is_absolute(path: Seq<char>) -> bool;

/// `std::path::Path::extension` of a UTF-8 path.
pub uninterp spec fn std_path_extension(path: Seq<char>) -> Option<Seq<char>>;

/// `std::path::Path::parent` of a UTF-8 path.
pub uninterp spec fn std_path_parent(path: Seq<char>) -> Option<Seq<char>>;

/// `==` on `std::path::Path`, which compares paths component by component.
pub uninterp spec fn std_path_eq(a: Seq<char>, b: Seq<char>) -> bool;

/// `Path::join`: `path` appended to `base`, or `path` itself when it is
/// absolute; the result is named, not spelled out.
#[verifier::external_body]
pub(crate) fn path_join(base: &str, path: &str) -> (r: String)
    ensures
        r@ == std_path_join(base@, path@),
{
    std::path::Path::new(base).join(path).to_string_lossy().into_owned()
}

/// `Path::is_absolute`; the result is named, not spelled out.
#[verifier::external_body]
pub(crate) fn path_is_absolute(path: &str) -> (r: bool)
    ensures
        r == std_path_is_absolute(path@),
{
    std::path::Path::new(path).is_absolute()
}

/// `Path::extension`, kept when it is UTF-8 (it always is for a UTF-8
/// path); the result is named, not spelled out.
#[verifier::external_body]
pub(crate) fn path_extension(path: &str) -> (r: Option<String>)
    ensures
        match r {
            Some(e) => std_path_extension(path@) == Some(e@),
            None => std_path_extension(path@) is None,
        },
{
    std::path::Path::new(path).extension().and_then(|x| x.to_str()).map(|x| x.to_string())
}

/// `Path::parent`; the result is named, not spelled out.
#[verifier::external_body]
pub(crate) fn path_parent(path: &str) -> (r: Option<String>)
    ensures
        match r {
            Some(p) => std_path_parent(path@) == Some(p@),
            None => std_path_parent(path@) is None,
        },
{
    std::path::Path::new(path).parent().map(|p| p.to_string_lossy().into_owned())
}

/// `==` on two paths; the result is named, not spelled out.
#[verifier::external_body]
pub(crate) fn path_eq(a: &str, b: &str) -> (r: bool)
    ensures
        r == std_path_eq(a@, b@),
{
    std::path::Path::new(a) == std::path::Path::new(b)
}

/// Where a relative command-line path is looked up.
pub open spec fn spec_resolve_against(root: Seq<char>, path: Seq<char>) -> Seq<char> {
    if std_path_is_absolute(path) || std_path_eq(root, "."@) { path } else { std_path_join(root, path) }
}

/// Joins `path` onto `root` unless the path is absolute or the root is the
/// default `.`, which keeps the common no-flag case identical to what the
/// user typed.
pub fn resolve_against(root: &str, path: &str) -> (r: String)
    ensures
        r@ == spec_resolve_against(root@, path@),
{
    if path_is_absolute(path) || path_eq(root, ".") {
        String::from_str(path)
    } else {
        path_join(root, path)
    }
}

/// A classified command-line input.
#[derive(Clone, Copy, Debug, PartialEq, Eq, Hash, Structural)]
pub enum File {
    Program(FileId),
    Interface(FileId),
}

impl File {
    /// The program or interface named `id`.
    pub open spec fn of(id: FileId, is_interface: bool) -> File {
        if is_interface { File::Interface(id) } else { File::Program(id) }
    }

    /// The file's id.
    pub open spec fn id(self) -> FileId {
        match self {
            File::Program(id) => id,
            File::Interface(id) => id,
        }
    }
}

/// How the result `lr` of loading an interface becomes the answer `r`, the
/// set of files handed out going from `seen0` to `seen1`: a load error is
/// the answer; a loaded id is handed out unless it already was, in which
/// case the answer is `None`.
pub open spec fn hands_out(lr: Result<FileId, Diagnostic>, seen0: Set<FileId>, seen1: Set<FileId>,
    r: Result<Option<FileId>, Diagnostic>) -> bool {
    match lr {
        Err(d) => r == Err::<Option<FileId>, Diagnostic>(d) && seen1 == seen0,
        Ok(id) => {
            &&& seen1 == seen0.insert(id)
            &&& r == Ok::<Option<FileId>, Diagnostic>(if seen0.contains(id) { None } else { Some(id) })
        },
    }
}

/// A file is handed out at most once: once a load of it was handed out,
/// handing out a later load of the same file answers `None` and changes
/// nothing.
pub proof fn lemma_handed_out_once(id: FileId, seen0: Set<FileId>, seen1: Set<FileId>, seen2: Set<FileId>,
    r1: Result<Option<FileId>, Diagnostic>, r2: Result<Option<FileId>, Diagnostic>)
    requires
        hands_out(Ok(id), seen0, seen1, r1),
        hands_out(Ok(id), seen1, seen2, r2),
    ensures
        r2 == Ok::<Option<FileId>, Diagnostic>(None),
        seen2 == seen1,
{
    assert(seen1.contains(id));
    assert(seen2 =~= seen1);
}

/// As [`hands_out`], for a command-line file classified as a program or an
/// interface.
pub open spec fn hands_out_file(lr: Result<FileId, Diagnostic>, seen0: Set<FileId>, seen1: Set<FileId>,
    r: Result<Option<File>, Diagnostic>, is_interface: bool) -> bool {
    match lr {
        Err(d) => r == Err::<Option<File>, Diagnostic>(d) && seen1 == seen0,
        Ok(id) => {
            &&& seen1 == seen0.insert(id)
            &&& r == Ok::<Option<File>, Diagnostic>(if seen0.contains(id) { None } else { Some(File::of(id, is_interface)) })
        },
    }
}

/// Some result of loading `path` (see [`loads`]) is handed out as `r` (see
/// [`hands_out`]).
pub open spec fn loads_and_hands_out(before: EtaCache, after: EtaCache, path: Seq<char>, read: Result<String, String>,
    seen0: Set<FileId>, seen1: Set<FileId>, r: Result<Option<FileId>, Diagnostic>) -> bool {
    exists|lr: Result<FileId, Diagnostic>|
        #[trigger] loads(before, after, path, read, lr) && hands_out(lr, seen0, seen1, r)
}

/// `d` is the error for `use name` at `at` when none of `candidates`
/// exists: it names every location searched.
pub open spec fn reports_missing(d: Diagnostic, name: Seq<char>, at: Span, candidates: Seq<Seq<char>>) -> bool {
    &&& d.level == Level::Error
    &&& d.loc == Some(at)
    &&& d.message@ == "cannot find interface `"@ + name + "`"@
    &&& d.labels@.len() == 1
    &&& d.labels@[0].0 == at
    &&& d.labels@[0].1@ == "no `"@ + name + ".eti` on the search path"@
    &&& d.note matches Some(n) && n@ == "searched: "@ + join_comma(candidates)
}

/// The text of each string.
pub open spec fn texts(v: Seq<String>) -> Seq<Seq<char>> {
    v.map_values(|c: String| c@)
}

/// What classifying a command-line path does, given what resolving and
/// classifying it gave (`planned`, see [`spec_plan_cli`]): an unusable path
/// is reported and nothing changes; a usable one is loaded (see [`loads`])
/// and handed out (see [`hands_out_file`]).
pub open spec fn classifies(planned: Result<(Seq<char>, bool), Seq<char>>, before: EtaCache, after: EtaCache,
    read: Result<String, String>, seen0: Set<FileId>, seen1: Set<FileId>, r: Result<Option<File>, Diagnostic>) -> bool {
    if planned is Err {
        &&& after == before
        &&& seen1 == seen0
        &&& r is Err
        &&& r->Err_0.message@ == planned->Err_0
        &&& r->Err_0.level == Level::Error
        &&& r->Err_0.loc is None
    } else {
        loads_and_hands_out_file(before, after, planned->Ok_0.0, read, seen0, seen1, r, planned->Ok_0.1)
    }
}

/// Some result of loading `path` (see [`loads`]) is handed out as `r` (see
/// [`hands_out_file`]).
pub open spec fn loads_and_hands_out_file(before: EtaCache, after: EtaCache, path: Seq<char>, read: Result<String, String>,
    seen0: Set<FileId>, seen1: Set<FileId>, r: Result<Option<File>, Diagnostic>, is_interface: bool) -> bool {
    exists|lr: Result<FileId, Diagnostic>|
        #[trigger] loads(before, after, path, read, lr) && hands_out_file(lr, seen0, seen1, r, is_interface)
}

/// What to do with a command-line path: read `path`, a program or an
/// interface.
#[derive(Clone, Debug)]
pub struct CliPlan {
    pub path: String,
    pub is_interface: bool,
}

/// The message of the diagnostic for an unknown extension.
pub open spec fn unknown_type_message(ext: Seq<char>, path: Seq<char>) -> Seq<char> {
    "unknown file type `"@ + ext + "` for "@ + path
}

/// The diagnostic for a path whose extension is neither `eta` nor `eti`.
fn unknown_file_type(ext: &str, path: &str) -> (d: Diagnostic)
    ensures
        d.level == Level::Error,
        d.loc is None,
        d.message@ == unknown_type_message(ext@, path@),
        d.labels@.len() == 0,
        d.note is None,
{
    let mut m = String::from_str("unknown file type `");
    m.append(ext);
    m.append("` for ");
    m.append(path);
    Diagnostic::error_no_span(m)
}

/// Whether `ext` is `eta` (program), `eti` (interface) or neither.
pub(crate) fn extension_kind(ext: &str) -> (r: Option<bool>)
    ensures
        r == (if ext@ == "eta"@ { Some(false) } else if ext@ == "eti"@ { Some(true) } else { None::<bool> }),
{
    let e = String::from_str(ext);
    if e == String::from_str("eta") {
        Some(false)
    } else if e == String::from_str("eti") {
        Some(true)
    } else {
        None
    }
}

/// Resolves and classifies a file named on the command line.
pub open spec fn spec_plan_cli(source_path: Seq<char>, path: Seq<char>) -> Result<(Seq<char>, bool), Seq<char>> {
    let p = spec_resolve_against(source_path, path);
    let ext = match std_path_extension(p) { Some(e) => e, None => Seq::empty() };
    if std_path_extension(p) == Some("eta"@) {
        Ok((p, false))
    } else if std_path_extension(p) == Some("eti"@) {
        Ok((p, true))
    } else {
        Err(unknown_type_message(ext, p))
    }
}

/// Hands out every file at most once.
pub struct Resolver {
    source_path: String,
    lib_path: String,
    seen: Vec<FileId>,
}

impl Resolver {
    #[verifier::type_invariant]
    spec fn inv(self) -> bool {
        self.seen@.no_duplicates()
    }

    pub closed spec fn source_path(&self) -> Seq<char> {
        self.source_path@
    }

    pub closed spec fn lib_path(&self) -> Seq<char> {
        self.lib_path@
    }

    /// Every file handed out so far.
    pub closed spec fn seen(&self) -> Set<FileId> {
        self.seen@.to_set()
    }

    pub fn new(source_path: &str, lib_path: &str) -> (r: Resolver)
        ensures
            r.source_path() == source_path@,
            r.lib_path() == lib_path@,
            r.seen() == Set::<FileId>::empty(),
    {
        let r = Resolver { source_path: String::from_str(source_path), lib_path: String::from_str(lib_path), seen: Vec::new() };
        assert(r.seen@.to_set() =~= Set::<FileId>::empty());
        r
    }

    /// Resolves a command-line path against `--sourcepath` and classifies it
    /// by extension; the error is the diagnostic to report.
    pub fn plan_cli(&self, path: &str) -> (r: Result<CliPlan, Diagnostic>)
        ensures
            match r {
                Ok(plan) => spec_plan_cli(self.source_path(), path@) == Ok::<(Seq<char>, bool), Seq<char>>((plan.path@, plan.is_interface)),
                Err(d) => spec_plan_cli(self.source_path(), path@) == Err::<(Seq<char>, bool), Seq<char>>(d.message@)
                    && d.level == Level::Error && d.loc is None && d.labels@.len() == 0 && d.note is None,
            },
    {
        let resolved = resolve_against(self.source_path.as_str(), path);
        let ext = path_extension(resolved.as_str());
        match ext {
            Some(e) => match extension_kind(e.as_str()) {
                Some(is_interface) => Ok(CliPlan { path: resolved, is_interface }),
                None => Err(unknown_file_type(e.as_str(), resolved.as_str())),
            },
            None => {
                let none = String::new();
                Err(unknown_file_type(none.as_str(), resolved.as_str()))
            }
        }
    }

    /// Marks `id` as handed out; `false` when it already was.
    fn mark(&mut self, id: FileId) -> (fresh: bool)
        ensures
            fresh == !old(self).seen().contains(id),
            final(self).seen() == old(self).seen().insert(id),
            final(self).source_path() == old(self).source_path(),
            final(self).lib_path() == old(self).lib_path(),
    {
        proof { use_type_invariant(&*self); }
        let mut i: usize = 0;
        while i < self.seen.len()
            invariant
                i <= self.seen@.len(),
                forall|k: int| 0 <= k < i ==> self.seen@[k] != id,
            decreases self.seen.len() - i,
        {
            if self.seen[i] == id {
                proof { assert(self.seen@.to_set().insert(id) =~= self.seen@.to_set()); }
                return false;
            }
            i = i + 1;
        }
        let mut tmp = Resolver { source_path: String::new(), lib_path: String::new(), seen: Vec::new() };
        std::mem::swap(&mut tmp, self);
        let Resolver { source_path, lib_path, mut seen } = tmp;
        let ghost before = seen@;
        seen.push(id);
        proof {
            assert(!before.contains(id));
            assert forall|a: FileId| seen@.contains(a) <==> (before.contains(a) || a == id) by {
                if a == id {
                    assert(seen@[before.len() as int] == id);
                }
                if before.contains(a) {
                    let k = choose|k: int| 0 <= k < before.len() && before[k] == a;
                    assert(seen@[k] == a);
                }
                if seen@.contains(a) {
                    let k = choose|k: int| 0 <= k < seen@.len() && seen@[k] == a;
                    if k < before.len() {
                        assert(before[k] == a);
                    }
                }
            }
            assert(seen@.to_set() =~= before.to_set().insert(id));
        }
        *self = Resolver { source_path, lib_path, seen };
        true
    }

    /// Hands out a command-line file once its text is loaded as `id`;
    /// `None` when it was already handed out.
    pub fn admit_cli(&mut self, id: FileId, is_interface: bool) -> (r: Option<File>)
        ensures
            final(self).seen() == old(self).seen().insert(id),
            final(self).source_path() == old(self).source_path(),
            final(self).lib_path() == old(self).lib_path(),
            old(self).seen().contains(id) ==> r is None,
            !old(self).seen().contains(id) ==> r == Some(if is_interface { File::Interface(id) } else { File::Program(id) }),
    {
        if self.mark(id) {
            if is_interface { Some(File::Interface(id)) } else { Some(File::Program(id)) }
        } else {
            None
        }
    }

    /// Classifies a file named on the command line and loads it, relative
    /// paths being resolved against `--sourcepath` ([`Resolver::plan_cli`]
    /// says which path to read). `read` is what reading that path gave: its
    /// text or the I/O error's message; it is not looked at when the path is
    /// already stored or unusable.
    ///
    /// `Ok(None)` means the file was already handed out. `Err` carries the
    /// diagnostic to emit: unknown extension, I/O error, or no room left.
    pub fn classify_cli(&mut self, cache: &mut EtaCache, path: &str, read: Result<String, String>) -> (r: Result<Option<File>, Diagnostic>)
        ensures
            final(self).source_path() == old(self).source_path(),
            final(self).lib_path() == old(self).lib_path(),
            classifies(spec_plan_cli(old(self).source_path(), path@), *old(cache), *final(cache), read,
                old(self).seen(), final(self).seen(), r),
    {
        let ghost s0 = self.seen();
        let ghost rd = read;
        let ghost c0 = *cache;
        let ghost planned = spec_plan_cli(self.source_path(), path@);
        let r = match self.plan_cli(path) {
            Err(d) => {
                let r = Err(d);
                assert(classifies(planned, c0, *cache, rd, s0, self.seen(), r));
                r
            },
            Ok(plan) => {
                let lr = load(cache, plan.path.as_str(), read);
                let r = match lr {
                    Err(d) => Err(d),
                    Ok(id) => Ok(self.admit_cli(id, plan.is_interface)),
                };
                assert(loads(c0, *cache, plan.path@, rd, lr));
                assert(hands_out_file(lr, s0, self.seen(), r, plan.is_interface));
                assert(classifies(planned, c0, *cache, rd, s0, self.seen(), r));
                r
            }
        };
        r
    }

    /// Resolves `use name`, blamed at `at`, appearing in the stored file
    /// `from`: the candidates of [`Resolver::use_candidates`] are probed in
    /// order with `is_file`, and the first that exists is loaded, read with
    /// `read` (its text or the I/O error's message) unless it is already
    /// stored; later candidates are neither probed nor read.
    ///
    /// `Ok(None)` means the interface was already handed out. `Err` carries
    /// the diagnostic to emit: no candidate exists (naming every location
    /// searched), or the load failed.
    pub fn resolve_use<P: Fn(&str) -> bool, R: Fn(&str) -> Result<String, String>>(&mut self, cache: &mut EtaCache,
        from: FileId, name: &str, at: Span, is_file: &P, read: &R) -> (r: Result<Option<FileId>, Diagnostic>)
        requires
            from.index < old(cache).sources.names().len(),
            forall|p: &str| #[trigger] is_file.requires((p,)),
            forall|p: &str| #[trigger] read.requires((p,)),
        ensures
            final(self).source_path() == old(self).source_path(),
            final(self).lib_path() == old(self).lib_path(),
            resolves_use(*is_file, *read, spec_use_candidates(old(self).lib_path(), old(cache).sources.names()[from.index as int], name@),
                name@, at, *old(cache), *final(cache), old(self).seen(), final(self).seen(), r),
    {
        let candidates = self.use_candidates(cache.source_name(from), name);
        let ghost cands = texts(candidates@);
        let ghost before = *cache;
        let ghost s0 = self.seen();
        let mut k: usize = 0;
        while k < candidates.len()
            invariant
                k <= candidates@.len(),
                cands == texts(candidates@),
                cands == spec_use_candidates(old(self).lib_path(), before.sources.names()[from.index as int], name@),
                before == *old(cache),
                s0 == old(self).seen(),
                forall|j: int| 0 <= j < k ==> #[trigger] probe_gave(*is_file, cands[j], false),
                forall|p: &str| #[trigger] is_file.requires((p,)),
                forall|p: &str| #[trigger] read.requires((p,)),
                *cache == before,
                self.seen() == s0,
                self.source_path() == old(self).source_path(),
                self.lib_path() == old(self).lib_path(),
            decreases candidates.len() - k,
        {
            let path = candidates[k].as_str();
            let exists = is_file(path);
            proof {
                assert(path@ == cands[k as int]);
                assert(probe_gave(*is_file, cands[k as int], exists));
            }
            if exists {
                let rd = match cache.source_id(path) {
                    Some(_) => Err(String::new()),
                    None => read(path),
                };
                let ghost g = rd;
                proof {
                    if before.stored(path@) is None {
                        assert(read.ensures((path,), g));
                        assert(read_gave(*read, path@, g));
                    }
                }
                let lr = load(cache, path, rd);
                let r = match lr {
                    Err(d) => Err(d),
                    Ok(id) => Ok(self.admit_use(id)),
                };
                proof {
                    assert(loads(before, *cache, path@, g, lr));
                    assert(hands_out(lr, s0, self.seen(), r));
                    assert(loads_and_hands_out(before, *cache, path@, g, s0, self.seen(), r));
                    assert(reads_and_hands_out(*read, before, *cache, path@, s0, self.seen(), r));
                    assert(first_existing(*is_file, cands, k as int));
                    assert(resolves_use(*is_file, *read, cands, name@, at, before, *cache, s0, self.seen(), r));
                }
                return r;
            }
            k = k + 1;
        }
        let r = Err(missing_interface(name, at, &candidates));
        assert(first_existing(*is_file, cands, k as int));
        r
    }

    /// Paths searched for `use name` appearing in the file at `from_path`:
    /// `name.eti` next to it, then under `--libpath` unless that is the
    /// same path.
    pub fn use_candidates(&self, from_path: &str, name: &str) -> (r: Vec<String>)
        ensures
            texts(r@) == spec_use_candidates(self.lib_path(), from_path@, name@),
    {
        let mut file_name = String::from_str(name);
        file_name.append(".eti");
        let dir = match path_parent(from_path) {
            Some(p) => p,
            None => String::new(),
        };
        let first = path_join(dir.as_str(), file_name.as_str());
        let in_lib = path_join(self.lib_path.as_str(), file_name.as_str());
        let same = path_eq(in_lib.as_str(), first.as_str());
        let mut candidates = Vec::new();
        candidates.push(first);
        if !same {
            candidates.push(in_lib);
        }
        assert(texts(candidates@) =~= spec_use_candidates(self.lib_path(), from_path@, name@));
        candidates
    }

    /// Hands out the interface found for a `use` at `id`; `None` when it was
    /// already handed out.
    pub fn admit_use(&mut self, id: FileId) -> (r: Option<FileId>)
        ensures
            final(self).seen() == old(self).seen().insert(id),
            final(self).source_path() == old(self).source_path(),
            final(self).lib_path() == old(self).lib_path(),
            r == (if old(self).seen().contains(id) { None } else { Some(id) }),
    {
        if self.mark(id) { Some(id) } else { None }
    }
}

/// `read`, given the path `path`, gave `r`.
pub open spec fn read_gave<F: Fn(&str) -> Result<String, String>>(read: F, path: Seq<char>, r: Result<String, String>) -> bool {
    exists|p: &str| p@ == path && #[trigger] read.ensures((p,), r)
}

/// `probe`, asked whether the path `path` is a file, answered `b`.
pub open spec fn probe_gave<P: Fn(&str) -> bool>(probe: P, path: Seq<char>, b: bool) -> bool {
    exists|p: &str| p@ == path && #[trigger] probe.ensures((p,), b)
}

/// `is_file` answered that none of the candidates before `k` exists and,
/// when `k` is a candidate's index, that this one does: `k` is the first
/// existing candidate, or `cands.len()` when none exists.
pub open spec fn first_existing<P: Fn(&str) -> bool>(is_file: P, cands: Seq<Seq<char>>, k: int) -> bool {
    &&& 0 <= k <= cands.len()
    &&& forall|j: int| 0 <= j < k ==> #[trigger] probe_gave(is_file, cands[j], false)
    &&& k < cands.len() ==> probe_gave(is_file, cands[k], true)
}

/// Loading `path` (see [`loads`]), whose text is read with `read` only when
/// the path is not stored yet, and handing the result out (see
/// [`hands_out`]).
pub open spec fn reads_and_hands_out<R: Fn(&str) -> Result<String, String>>(read: R, before: EtaCache, after: EtaCache,
    path: Seq<char>, seen0: Set<FileId>, seen1: Set<FileId>, r: Result<Option<FileId>, Diagnostic>) -> bool {
    exists|rd: Result<String, String>| {
        &&& #[trigger] loads_and_hands_out(before, after, path, rd, seen0, seen1, r)
        &&& before.stored(path) is None ==> read_gave(read, path, rd)
    }
}

/// What resolving `use name` at `at` does, the candidates being `cands`:
/// the first candidate that `is_file` says exists is loaded and handed out,
/// and nothing else is read or stored; when none exists, the answer is the
/// error naming every candidate and nothing changes.
pub open spec fn resolves_use<P: Fn(&str) -> bool, R: Fn(&str) -> Result<String, String>>(is_file: P, read: R,
    cands: Seq<Seq<char>>, name: Seq<char>, at: Span, before: EtaCache, after: EtaCache, seen0: Set<FileId>,
    seen1: Set<FileId>, r: Result<Option<FileId>, Diagnostic>) -> bool {
    exists|k: int| #[trigger] first_existing(is_file, cands, k) && if k == cands.len() {
        &&& after == before
        &&& seen1 == seen0
        &&& r is Err
        &&& reports_missing(r->Err_0, name, at, cands)
    } else {
        reads_and_hands_out(read, before, after, cands[k], seen0, seen1, r)
    }
}

/// Loading a path again, once a load of it succeeded, gives the same id
/// without looking at what reading it gave, and changes nothing.
pub proof fn lemma_loaded_again(c0: EtaCache, c1: EtaCache, c2: EtaCache, path: Seq<char>, rd1: Result<String, String>,
    rd2: Result<String, String>, id: FileId, lr: Result<FileId, Diagnostic>)
    requires
        loads(c0, c1, path, rd1, Ok(id)),
        loads(c1, c2, path, rd2, lr),
    ensures
        lr == Ok::<FileId, Diagnostic>(id),
        c2 == c1,
{
}

/// Classifying a usable command-line path a second time, after the first
/// time went through, answers `Ok(None)` and changes nothing: a file is
/// handed out once however often it is named.
pub proof fn lemma_classified_once(planned: Result<(Seq<char>, bool), Seq<char>>, c0: EtaCache, c1: EtaCache, c2: EtaCache,
    rd1: Result<String, String>, rd2: Result<String, String>, s0: Set<FileId>, s1: Set<FileId>, s2: Set<FileId>,
    r1: Result<Option<File>, Diagnostic>, r2: Result<Option<File>, Diagnostic>)
    requires
        planned is Ok,
        classifies(planned, c0, c1, rd1, s0, s1, r1),
        r1 is Ok,
        classifies(planned, c1, c2, rd2, s1, s2, r2),
    ensures
        r2 == Ok::<Option<File>, Diagnostic>(None),
        c2 == c1,
        s2 == s1,
{
    let (p, i) = planned->Ok_0;
    let lr1 = choose|lr: Result<FileId, Diagnostic>| #[trigger] loads(c0, c1, p, rd1, lr) && hands_out_file(lr, s0, s1, r1, i);
    let lr2 = choose|lr: Result<FileId, Diagnostic>| #[trigger] loads(c1, c2, p, rd2, lr) && hands_out_file(lr, s1, s2, r2, i);
    let id = lr1->Ok_0;
    lemma_loaded_again(c0, c1, c2, p, rd1, rd2, id, lr2);
    assert(s1.contains(id));
    assert(s2 =~= s1);
}

/// An interface named on the command line and then found for a `use` is
/// handed out once: the `use` answers `Ok(None)` and changes nothing. The
/// same holds of a `use` resolved twice.
pub proof fn lemma_interface_once_across_entry_points<R: Fn(&str) -> Result<String, String>>(read: R, path: Seq<char>,
    c0: EtaCache, c1: EtaCache, c2: EtaCache, rd1: Result<String, String>, s0: Set<FileId>, s1: Set<FileId>, s2: Set<FileId>,
    r1: Result<Option<File>, Diagnostic>, r2: Result<Option<FileId>, Diagnostic>)
    requires
        classifies(Ok((path, true)), c0, c1, rd1, s0, s1, r1),
        r1 is Ok,
        reads_and_hands_out(read, c1, c2, path, s1, s2, r2),
    ensures
        r2 == Ok::<Option<FileId>, Diagnostic>(None),
        c2 == c1,
        s2 == s1,
{
    let lr1 = choose|lr: Result<FileId, Diagnostic>| #[trigger] loads(c0, c1, path, rd1, lr) && hands_out_file(lr, s0, s1, r1, true);
    let rd2 = choose|rd: Result<String, String>| #[trigger] loads_and_hands_out(c1, c2, path, rd, s1, s2, r2)
        && (c1.stored(path) is None ==> read_gave(read, path, rd));
    let lr2 = choose|lr: Result<FileId, Diagnostic>| #[trigger] loads(c1, c2, path, rd2, lr) && hands_out(lr, s1, s2, r2);
    lemma_loaded_again(c0, c1, c2, path, rd1, rd2, lr1->Ok_0, lr2);
    assert(s1.contains(lr1->Ok_0));
    assert(s2 =~= s1);
}

/// A `use` resolved to a path a second time, after the first time went
/// through, answers `Ok(None)` and changes nothing.
pub proof fn lemma_use_once<R: Fn(&str) -> Result<String, String>>(read: R, path: Seq<char>, c0: EtaCache, c1: EtaCache,
    c2: EtaCache, s0: Set<FileId>, s1: Set<FileId>, s2: Set<FileId>, r1: Result<Option<FileId>, Diagnostic>,
    r2: Result<Option<FileId>, Diagnostic>)
    requires
        reads_and_hands_out(read, c0, c1, path, s0, s1, r1),
        r1 is Ok,
        reads_and_hands_out(read, c1, c2, path, s1, s2, r2),
    ensures
        r2 == Ok::<Option<FileId>, Diagnostic>(None),
        c2 == c1,
        s2 == s1,
{
    let rd1 = choose|rd: Result<String, String>| #[trigger] loads_and_hands_out(c0, c1, path, rd, s0, s1, r1)
        && (c0.stored(path) is None ==> read_gave(read, path, rd));
    let lr1 = choose|lr: Result<FileId, Diagnostic>| #[trigger] loads(c0, c1, path, rd1, lr) && hands_out(lr, s0, s1, r1);
    let rd2 = choose|rd: Result<String, String>| #[trigger] loads_and_hands_out(c1, c2, path, rd, s1, s2, r2)
        && (c1.stored(path) is None ==> read_gave(read, path, rd));
    let lr2 = choose|lr: Result<FileId, Diagnostic>| #[trigger] loads(c1, c2, path, rd2, lr) && hands_out(lr, s1, s2, r2);
    lemma_loaded_again(c0, c1, c2, path, rd1, rd2, lr1->Ok_0, lr2);
    assert(s1.contains(lr1->Ok_0));
    assert(s2 =~= s1);
}

/// The paths searched, in order, for `use name` in the file at `from`.
pub open spec fn spec_use_candidates(lib: Seq<char>, from: Seq<char>, name: Seq<char>) -> Seq<Seq<char>> {
    let first = std_path_join(use_dir(from), name + ".eti"@);
    let in_lib = std_path_join(lib, name + ".eti"@);
    if std_path_eq(in_lib, first) { seq![first] } else { seq![first, in_lib] }
}

/// The message when the source map has no room left for the file at
/// `path`.
pub open spec fn full_message(path: Seq<char>) -> Seq<char> {
    "too much source text to load "@ + path
}

/// The effect of loading `path`, whose read gave `read`, into a cache that
/// was `before` and is now `after`, with result `r`: a stored path keeps its
/// id and the read is not used; otherwise the text is stored under the path,
/// or the read error (or lack of room) is the diagnostic and nothing changes.
pub open spec fn loads(before: EtaCache, after: EtaCache, path: Seq<char>, read: Result<String, String>, r: Result<FileId, Diagnostic>) -> bool {
    match before.stored(path) {
        Some(id) => r == Ok::<FileId, Diagnostic>(id) && after == before,
        None => match read {
            Err(m) => {
                &&& after == before
                &&& r matches Err(d) && d.message@ == m@ && d.level == Level::Error && d.loc is None
            },
            Ok(text) => if before.has_room(byte_len(text@)) {
                &&& r matches Ok(id)
                &&& after.stored(path) == Some(id)
                &&& after.sources.files() == before.sources.files().push(
                    FileEntry { id, base: before.sources.next_base(), text: text@ })
                &&& after.asts.spans.spans() == before.asts.spans.spans()
            } else {
                &&& after == before
                &&& r matches Err(d) && d.message@ == full_message(path) && d.level == Level::Error && d.loc is None
            },
        },
    }
}

/// Stores the text read from `path` in `cache`, unless the path is already
/// stored, in which case its id is reused and `read` is not looked at.
pub(crate) fn load(cache: &mut EtaCache, path: &str, read: Result<String, String>) -> (r: Result<FileId, Diagnostic>)
    ensures
        loads(*old(cache), *final(cache), path@, read, r),
{
    match cache.source_id(path) {
        Some(id) => Ok(id),
        None => match read {
            Err(m) => Err(io_error(m)),
            Ok(text) => {
                let n = text.as_str().as_bytes().len();
                if cache.can_store(n) {
                    Ok(cache.store_source(path, text))
                } else {
                    let mut m = String::from_str("too much source text to load ");
                    m.append(path);
                    Err(Diagnostic::error_no_span(m))
                }
            }
        },
    }
}

/// Directory searched first for a `use` in the file at `from`.
pub open spec fn use_dir(from: Seq<char>) -> Seq<char> {
    match std_path_parent(from) {
        Some(p) => p,
        None => Seq::empty(),
    }
}

/// `items` joined with `", "`.
pub open spec fn join_comma(items: Seq<Seq<char>>) -> Seq<char>
    decreases items.len(),
{
    if items.len() == 0 {
        Seq::empty()
    } else if items.len() == 1 {
        items[0]
    } else {
        join_comma(items.drop_last()) + ", "@ + items.last()
    }
}

/// The error for a `use name` at `at` when no candidate exists: it names
/// every location searched.
pub fn missing_interface(name: &str, at: Span, candidates: &Vec<String>) -> (d: Diagnostic)
    ensures
        reports_missing(d, name@, at, texts(candidates@)),
{
    let mut m = String::from_str("cannot find interface `");
    m.append(name);
    m.append("`");
    let mut label = String::from_str("no `");
    label.append(name);
    label.append(".eti` on the search path");
    let mut note = String::from_str("searched: ");
    let ghost views = texts(candidates@);
    let ghost start = note@;
    let mut i: usize = 0;
    while i < candidates.len()
        invariant
            i <= candidates@.len(),
            views == texts(candidates@),
            note@ == start + join_comma(views.subrange(0, i as int)),
        decreases candidates.len() - i,
    {
        let ghost before = note@;
        if i > 0 {
            note.append(", ");
        }
        note.append(candidates[i].as_str());
        proof {
            let sub = views.subrange(0, i + 1);
            assert(sub.drop_last() =~= views.subrange(0, i as int));
            if i == 0 {
                assert(join_comma(sub) == sub[0]);
                assert(join_comma(views.subrange(0, 0)) =~= Seq::<char>::empty());
            }
        }
        i = i + 1;
        assert(note@ =~= start + join_comma(views.subrange(0, i as int)));
    }
    assert(views.subrange(0, candidates@.len() as int) =~= views);
    Diagnostic::error(at, m).with_primary_label(label).with_note(note)
}

/// The error for a file that could not be read; `message` describes the
/// I/O failure.
pub fn io_error(message: String) -> (d: Diagnostic)
    ensures
        d.level == Level::Error,
        d.loc is None,
        d.message@ == message@,
        d.labels@.len() == 0,
{
    Diagnostic::error_no_span(message)
}

} // verus!
