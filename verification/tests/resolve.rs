use etac::cache::EtaCache;
use etac::diagnostic::{DiagCtxt, Diagnostic, Level};
use etac::resolve::{resolve_against, File, Resolver};
use etac::source_map::FileId;
use etac::span::Span;

/// Files the tests pretend are on disk.
struct Disk {
    files: Vec<(String, String)>,
}

impl Disk {
    fn new(files: &[(&str, &str)]) -> Disk {
        Disk { files: files.iter().map(|(p, t)| (p.to_string(), t.to_string())).collect() }
    }

    fn is_file(&self, path: &str) -> bool {
        self.files.iter().any(|(p, _)| p == path)
    }

    /// What reading `path` gives.
    fn read_file(&self, path: &str) -> Result<String, String> {
        match self.files.iter().find(|(p, _)| p == path) {
            Some((_, t)) => Ok(t.clone()),
            None => Err("No such file or directory (os error 2)".to_string()),
        }
    }

    /// What reading `path` gives, unless the cache already holds it.
    fn read(&self, cache: &EtaCache, path: &str) -> Result<String, String> {
        if cache.source_id(path).is_some() {
            return Ok(String::new());
        }
        match self.files.iter().find(|(p, _)| p == path) {
            Some((_, t)) => Ok(t.clone()),
            None => Err("No such file or directory (os error 2)".to_string()),
        }
    }
}

/// `classify_cli`, with the driver's emit-on-error behavior folded in.
fn classify(disk: &Disk, r: &mut Resolver, cache: &mut EtaCache, dcx: &mut DiagCtxt, path: &str) -> Option<File> {
    let contents = match r.plan_cli(path) {
        Ok(plan) => disk.read(cache, &plan.path),
        Err(_) => Err(String::new()),
    };
    match r.classify_cli(cache, path, contents) {
        Ok(file) => file,
        Err(diag) => {
            dcx.emit(diag);
            None
        }
    }
}

/// `resolve_use`, probing and reading the disk.
fn resolve_use(disk: &Disk, r: &mut Resolver, cache: &mut EtaCache, from: FileId, name: &str) -> Result<Option<FileId>, Diagnostic> {
    let is_file = |p: &str| disk.is_file(p);
    let read = |p: &str| disk.read_file(p);
    r.resolve_use(cache, from, name, Span::dummy(), &is_file, &read)
}

fn error_count(dcx: &DiagCtxt) -> usize {
    dcx.diagnostics().iter().filter(|d| d.level == Level::Error).count()
}

#[test]
fn sourcepath_prefixes_relative_cli_paths() {
    let disk = Disk::new(&[("/root/sub/foo.eta", "main() {}\n")]);
    let mut cache = EtaCache::new();
    let mut dcx = DiagCtxt::new();
    let mut r = Resolver::new("/root", ".");
    let file = classify(&disk, &mut r, &mut cache, &mut dcx, "sub/foo.eta");
    let Some(File::Program(id)) = file else { panic!("expected a program, got {file:?}") };
    assert_eq!(cache.source_name(id), "/root/sub/foo.eta");
    assert_eq!(error_count(&dcx), 0);
}

#[test]
fn default_sourcepath_leaves_relative_paths_verbatim() {
    assert_eq!(resolve_against(".", "sub/foo.eta"), "sub/foo.eta", "default `.` must not rewrite the path");
}

#[test]
fn absolute_cli_paths_ignore_sourcepath() {
    let disk = Disk::new(&[("/root/bar.eti", "\n")]);
    let mut cache = EtaCache::new();
    let mut dcx = DiagCtxt::new();
    let mut r = Resolver::new("/elsewhere", ".");
    let file = classify(&disk, &mut r, &mut cache, &mut dcx, "/root/bar.eti");
    let Some(File::Interface(id)) = file else { panic!() };
    assert_eq!(cache.source_name(id), "/root/bar.eti", "absolute paths ignore --sourcepath");
}

#[test]
fn unusable_cli_path_reports_and_skips() {
    let disk = Disk::new(&[]);
    let mut cache = EtaCache::new();
    let mut dcx = DiagCtxt::new();
    let mut r = Resolver::new(".", ".");
    let file = classify(&disk, &mut r, &mut cache, &mut dcx, "foo.txt").is_some();
    assert!(!file);
    assert_eq!(error_count(&dcx), 1);
    assert!(dcx.diagnostics()[0].message.contains("unknown file type"));
}

#[test]
fn missing_cli_file_reports_io_error() {
    let disk = Disk::new(&[]);
    let mut cache = EtaCache::new();
    let mut dcx = DiagCtxt::new();
    let mut r = Resolver::new("/root", ".");
    let file = classify(&disk, &mut r, &mut cache, &mut dcx, "missing.eta").is_some();
    assert!(!file);
    assert_eq!(error_count(&dcx), 1);
}

#[test]
fn use_resolves_next_to_the_using_file() {
    let disk = Disk::new(&[("/dir/io.eti", "print(s: int[])\n"), ("/dir/main.eta", "main() {}\n")]);
    let mut cache = EtaCache::new();
    let mut dcx = DiagCtxt::new();
    let mut r = Resolver::new(".", ".");
    let from = match classify(&disk, &mut r, &mut cache, &mut dcx, "/dir/main.eta") {
        Some(File::Program(id)) => id,
        _ => unreachable!(),
    };
    let iid = resolve_use(&disk, &mut r, &mut cache, from, "io")
        .unwrap_or_else(|d| panic!("should resolve: {}", d.message))
        .expect("should resolve");
    assert_eq!(cache.source_name(iid), "/dir/io.eti");
    assert_eq!(error_count(&dcx), 0);
}

#[test]
fn use_falls_back_to_libpath() {
    let disk = Disk::new(&[("/lib/io.eti", "print(s: int[])\n"), ("/src/main.eta", "main() {}\n")]);
    let mut cache = EtaCache::new();
    let mut dcx = DiagCtxt::new();
    let mut r = Resolver::new(".", "/lib");
    let from = match classify(&disk, &mut r, &mut cache, &mut dcx, "/src/main.eta") {
        Some(File::Program(id)) => id,
        _ => unreachable!(),
    };
    let iid = resolve_use(&disk, &mut r, &mut cache, from, "io")
        .unwrap_or_else(|d| panic!("should resolve via libpath: {}", d.message))
        .expect("should resolve via libpath");
    assert_eq!(cache.source_name(iid), "/lib/io.eti");
    assert_eq!(error_count(&dcx), 0);
}

#[test]
fn missing_use_reports_every_searched_location() {
    let disk = Disk::new(&[("/src/main.eta", "main() {}\n")]);
    let mut cache = EtaCache::new();
    let mut dcx = DiagCtxt::new();
    let mut r = Resolver::new(".", "/lib");
    let from = match classify(&disk, &mut r, &mut cache, &mut dcx, "/src/main.eta") {
        Some(File::Program(id)) => id,
        _ => unreachable!(),
    };
    let result_is_err = match resolve_use(&disk, &mut r, &mut cache, from, "io") {
        Ok(_) => false,
        Err(diag) => {
            dcx.emit(diag);
            true
        }
    };
    assert!(result_is_err);
    assert_eq!(error_count(&dcx), 1);
    let note_diags: Vec<_> = dcx
        .diagnostics()
        .iter()
        .filter(|d| d.message.contains("cannot find interface `io`"))
        .collect();
    assert_eq!(note_diags.len(), 1);
    let note = note_diags[0].note.as_deref().expect("searched list");
    assert!(note.contains("/src/io.eti"));
    assert!(note.contains("/lib/io.eti"));
    assert_eq!(note, "searched: /src/io.eti, /lib/io.eti");
}

#[test]
fn same_interface_is_resolved_once_across_entry_points() {
    let disk = Disk::new(&[("/dir/io.eti", "print(s: int[])\n"), ("/dir/main.eta", "main() {}\n")]);
    let mut cache = EtaCache::new();
    let mut dcx = DiagCtxt::new();
    let mut r = Resolver::new(".", ".");
    let cli = classify(&disk, &mut r, &mut cache, &mut dcx, "/dir/io.eti");
    let from = match classify(&disk, &mut r, &mut cache, &mut dcx, "/dir/main.eta") {
        Some(File::Program(id)) => id,
        _ => unreachable!(),
    };
    let via_use = resolve_use(&disk, &mut r, &mut cache, from, "io").map(|o| o.is_none());
    let again = resolve_use(&disk, &mut r, &mut cache, from, "io").map(|o| o.is_none());
    assert!(matches!(cli, Some(File::Interface(_))), "first mention wins");
    assert!(via_use.is_ok_and(|deduped| deduped), "use of a CLI-queued interface is deduped");
    assert!(again.is_ok_and(|deduped| deduped), "repeated use is deduped");
    assert_eq!(error_count(&dcx), 0, "dedup is silent, not an error");
}

#[test]
fn unknown_extension_message_names_the_resolved_path() {
    let r = Resolver::new("src", ".");
    let d = r.plan_cli("foo.txt").unwrap_err();
    assert_eq!(d.message, "unknown file type `txt` for src/foo.txt");
    let d = r.plan_cli("noext").unwrap_err();
    assert_eq!(d.message, "unknown file type `` for src/noext");
}

#[test]
fn read_error_becomes_the_diagnostic() {
    let mut cache = EtaCache::new();
    let mut r = Resolver::new(".", ".");
    let d = r.classify_cli(&mut cache, "gone.eta", Err("no such file".to_string())).unwrap_err();
    assert_eq!(d.message, "no such file");
    assert!(cache.source_id("gone.eta").is_none());
}

#[test]
fn stored_path_is_reused_without_reading() {
    let mut cache = EtaCache::new();
    let mut r = Resolver::new(".", ".");
    let first = r.classify_cli(&mut cache, "a.eta", Ok("main() {}".to_string())).unwrap();
    let Some(File::Program(id)) = first else { panic!() };
    let again = r.classify_cli(&mut cache, "a.eta", Err("unreadable".to_string())).unwrap();
    assert!(again.is_none());
    assert_eq!(cache.source_text(id), "main() {}");
}

#[test]
fn use_candidates_skip_a_duplicate_libpath() {
    let r = Resolver::new(".", "lib");
    assert_eq!(r.use_candidates("src/main.eta", "io"), vec!["src/io.eti".to_string(), "lib/io.eti".to_string()]);
    let r = Resolver::new(".", "src");
    assert_eq!(r.use_candidates("src/main.eta", "io"), vec!["src/io.eti".to_string()]);
}

#[test]
fn use_prefers_the_using_files_directory_over_libpath() {
    let disk = Disk::new(&[
        ("/src/io.eti", "print(s: int[])\n"),
        ("/lib/io.eti", "println(s: int[])\n"),
        ("/src/main.eta", "main() {}\n"),
    ]);
    let mut cache = EtaCache::new();
    let mut dcx = DiagCtxt::new();
    let mut r = Resolver::new(".", "/lib");
    let from = match classify(&disk, &mut r, &mut cache, &mut dcx, "/src/main.eta") {
        Some(File::Program(id)) => id,
        _ => unreachable!(),
    };
    let iid = resolve_use(&disk, &mut r, &mut cache, from, "io").unwrap().unwrap();
    assert_eq!(cache.source_name(iid), "/src/io.eti");
    assert_eq!(cache.source_text(iid), "print(s: int[])\n");
    assert!(cache.source_id("/lib/io.eti").is_none());
}
