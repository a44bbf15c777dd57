//! The compilation session: the command-line flags, and where the `--lex`
//! and `--parse` diagnostic files go.

use vstd::prelude::*;
use crate::resolve::{std_path_eq, std_path_join};
use crate::text::{chars_of, chars_to_string};

verus! {

/// The command line of one compilation.
#[derive(Debug, Clone)]
pub struct Flags {
    /// Write the tokens of each source file to `<name>.lexed`.
    pub lex: bool,
    /// Write the syntax tree (or first syntax error) of each source file to
    /// `<name>.parsed`.
    pub parse: bool,
    /// Where the diagnostic files go; `-` is standard output.
    pub diag_path: String,
    /// What relative source paths are resolved against.
    pub source_path: String,
    /// Where `use`d interfaces are looked for after the using file's
    /// directory.
    pub lib_path: String,
    /// The files to compile.
    pub source_files: Vec<String>,
}

/// Whether `a` is `flag` or starts with `flag` followed by `=`.
pub open spec fn spells_flag(a: Seq<char>, flag: Seq<char>) -> bool {
    a == flag || (a.len() > flag.len() && a.subrange(0, flag.len() as int) == flag && a[flag.len() as int] == '=')
}

/// An argument with the single-dash spellings `-sourcepath` and `-libpath`
/// (alone or followed by `=value`) turned into their double-dash forms;
/// any other argument as it is.
pub open spec fn normalized_arg(a: Seq<char>) -> Seq<char> {
    if spells_flag(a, "-sourcepath"@) || spells_flag(a, "-libpath"@) { seq!['-'] + a } else { a }
}

fn spells_flag_exec(a: &Vec<char>, flag: &Vec<char>) -> (b: bool)
    ensures
        b == spells_flag(a@, flag@),
{
    if a.len() < flag.len() {
        return false;
    }
    let mut i: usize = 0;
    while i < flag.len()
        invariant
            i <= flag@.len() <= a@.len(),
            forall|k: int| 0 <= k < i ==> a@[k] == flag@[k],
        decreases flag.len() - i,
    {
        if a[i] != flag[i] {
            proof {
                assert(a@.subrange(0, flag@.len() as int)[i as int] != flag@[i as int]);
            }
            return false;
        }
        i = i + 1;
    }
    assert(a@.subrange(0, flag@.len() as int) =~= flag@);
    if a.len() == flag.len() {
        assert(a@ =~= flag@);
        true
    } else {
        a[flag.len()] == '='
    }
}

/// Accepts the course's single-dash spellings of the path flags, which a
/// conventional argument parser reads as bundled short flags.
pub fn normalize_arg(a: &str) -> (r: String)
    ensures
        r@ == normalized_arg(a@),
{
    let chars = chars_of(a);
    let sp = chars_of("-sourcepath");
    let lp = chars_of("-libpath");
    proof {
        reveal_strlit("-sourcepath");
        reveal_strlit("-libpath");
    }
    if spells_flag_exec(&chars, &sp) || spells_flag_exec(&chars, &lp) {
        let mut out: Vec<char> = Vec::new();
        out.push('-');
        let mut i: usize = 0;
        while i < chars.len()
            invariant
                i <= chars@.len(),
                out@ == seq!['-'] + chars@.subrange(0, i as int),
            decreases chars.len() - i,
        {
            out.push(chars[i]);
            i = i + 1;
            assert(out@ =~= seq!['-'] + chars@.subrange(0, i as int));
        }
        assert(chars@.subrange(0, chars@.len() as int) =~= chars@);
        chars_to_string(&out)
    } else {
        String::from_str(a)
    }
}

/// Normalizing an argument twice is normalizing it once: a double-dash
/// spelling is left alone.
pub proof fn lemma_normalize_idempotent(a: Seq<char>)
    ensures
        normalized_arg(normalized_arg(a)) == normalized_arg(a),
{
    reveal_strlit("-sourcepath");
    reveal_strlit("-libpath");
    let sp = "-sourcepath"@;
    let lp = "-libpath"@;
    let n = normalized_arg(a);
    if spells_flag(a, sp) || spells_flag(a, lp) {
        let flag = if spells_flag(a, sp) { sp } else { lp };
        assert(a[0] == '-') by {
            if a != flag {
                assert(a.subrange(0, flag.len() as int)[0] == a[0]);
            }
        }
        assert(n[1] == a[0]);
        if spells_flag(n, sp) {
            if n != sp {
                assert(n.subrange(0, sp.len() as int)[1] == n[1]);
            }
            assert(false);
        }
        if spells_flag(n, lp) {
            if n != lp {
                assert(n.subrange(0, lp.len() as int)[1] == n[1]);
            }
            assert(false);
        }
    }
}

/// Owns the decisions about the `--lex` / `--parse` diagnostic files: which
/// phases are logged and where the files go.
#[derive(Debug)]
pub struct Logger {
    diag_root: String,
    pub lex: bool,
    pub parse: bool,
}

/// Whether the diagnostic directory must exist before logging starts: some
/// phase is logged and the logs do not go to standard output.
pub open spec fn needs_diag_dir(lex: bool, parse: bool, diag_path: Seq<char>) -> bool {
    (lex || parse) && !std_path_eq(diag_path, "-"@)
}

impl Logger {
    /// Where diagnostic files go.
    pub closed spec fn diag_root(&self) -> Seq<char> {
        self.diag_root@
    }

    /// Whether tokens are logged.
    pub closed spec fn logs_lex(&self) -> bool {
        self.lex
    }

    /// Whether syntax trees are logged.
    pub closed spec fn logs_parse(&self) -> bool {
        self.parse
    }

    /// A logger for the phases `flags` asks to log. Creating the diagnostic
    /// directory, when [`Logger::needs_diag_dir`] says so, is left to the
    /// caller.
    pub fn new(flags: &Flags) -> (l: Logger)
        ensures
            l.logs_lex() == flags.lex,
            l.logs_parse() == flags.parse,
            l.diag_root() == flags.diag_path@,
    {
        Logger { diag_root: flags.diag_path.clone(), lex: flags.lex, parse: flags.parse }
    }

    /// Whether the diagnostic directory must be created.
    pub fn needs_diag_dir(&self) -> (b: bool)
        ensures
            b == needs_diag_dir(self.logs_lex(), self.logs_parse(), self.diag_root()),
    {
        (self.lex || self.parse) && !crate::resolve::path_eq(self.diag_root.as_str(), "-")
    }

    /// Where the log with extension `ext` of the file `file_name` goes:
    /// `None` for standard output (a diagnostic path of `-`), or the file
    /// `<diag path>/<file name>` with its extension replaced by `ext`. The
    /// log mirrors the file's relative path under the diagnostic path.
    /// `ext` holds no path separator (`/`, nor `\` where that separates
    /// paths too): std's `Path::with_extension` panics on one.
    pub fn log_path(&self, file_name: &str, ext: &str) -> (r: Option<String>)
        requires
            no_separator(ext@),
        ensures
            std_path_eq(self.diag_root(), "-"@) ==> r is None,
            !std_path_eq(self.diag_root(), "-"@) ==> (r matches Some(p)
                && p@ == std_path_with_extension(std_path_join(self.diag_root(), file_name@), ext@)),
    {
        if crate::resolve::path_eq(self.diag_root.as_str(), "-") {
            None
        } else {
            let joined = crate::resolve::path_join(self.diag_root.as_str(), file_name);
            Some(path_with_extension(joined.as_str(), ext))
        }
    }
}

/// `std::path::Path::with_extension` on a UTF-8 path. Like the other
/// `std_path_*` names, it is fixed for one target: std splits paths the
/// Unix way on Unix and otherwise on Windows.
pub uninterp spec fn std_path_with_extension(path: Seq<char>, ext: Seq<char>) -> Seq<char>;

/// Whether `ext` holds no character that std's `is_separator` accepts on
/// any target (`/` everywhere, `\` on Windows).
pub open spec fn no_separator(ext: Seq<char>) -> bool {
    !ext.contains('/') && !ext.contains('\\')
}

/// `Path::with_extension`: the path with its extension replaced by `ext`
/// (or added); the result is named, not spelled out. std panics when `ext`
/// holds a path separator, which `requires` rules out.
#[verifier::external_body]
fn path_with_extension(path: &str, ext: &str) -> (r: String)
    requires
        no_separator(ext@),
    ensures
        r@ == std_path_with_extension(path@, ext@),
{
    std::path::Path::new(path).with_extension(ext).to_string_lossy().into_owned()
}

} // verus!
