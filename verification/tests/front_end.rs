use etac::ast::{
    BinOp, Block, Decl, Definition, DefinitionKind, GlobDecl, Ident, Method, Program, Spanned, Type, TypeKind, UOp,
};
use etac::cache::EtaCache;
use etac::diagnostic::{DiagCtxt, Diagnostic, Level};
use etac::driver::{find_use_interface, load_error, outcome, parse_path, LoadBlame};
use etac::emitter::{plan, plan_any, Place, ReportKind};
use etac::lexer::Lexer;
use etac::lexlog::{lex_log, log_error_line};
use etac::printer::{Plain, SpanCtx};
use etac::resolve::File;
use etac::session::{normalize_arg, Flags, Logger};
use etac::source_map::{FileId, FileNames};
use etac::span::{EtaSpan, Span};
use etac::syntax::{format_expected, lexical_error, to_diag, ShownSyntaxError, SyntaxError};
use etac::testgen::{sanitize, test_name};
use etac::testing::TestingCache;
use etac::token::Token;
use etac::typecheck::{collect, CoreTy, Env, TyCtx};
use etac::cache::{NodeId, SpanMap};

fn sp(lo: u32, hi: u32) -> Span {
    Span::new(lo, hi)
}

fn ident(name: &str) -> Ident {
    Ident { span: sp(0, 0), sym: name.to_string() }
}

fn ty(kind: TypeKind) -> Type {
    Type { span: sp(0, 0), kind }
}

fn tokens(source: &str) -> Vec<Result<(usize, Token, usize), Diagnostic>> {
    let mut lexer = Lexer::new(0, source);
    let mut out = Vec::new();
    while let Some(item) = lexer.next() {
        out.push(item);
    }
    out
}

// ---- lexer ----

#[test]
fn negative_literal_only_directly_before_digits() {
    let toks = tokens("j-1 - 2 -x");
    let shown: Vec<String> = toks
        .iter()
        .map(|t| match t {
            Ok((lo, tok, hi)) => format!("{lo}..{hi} {tok:?}"),
            Err(d) => d.message.clone(),
        })
        .collect();
    assert_eq!(
        shown,
        vec!["0..1 Identifier(\"j\")", "1..3 Integer(-1)", "4..5 Minus", "6..7 Integer(2)", "8..9 Minus", "9..10 Identifier(\"x\")"]
    );
}

#[test]
fn most_negative_integer_is_accepted() {
    let toks = tokens("-9223372036854775808 -9223372036854775809");
    assert!(matches!(toks[0], Ok((0, Token::Integer(i64::MIN), 20))));
    match &toks[1] {
        Err(d) => assert_eq!(d.message, "illegal integer literal: number too large to fit in target type"),
        Ok(t) => panic!("expected an error, got {t:?}"),
    }
}

#[test]
fn minus_zero_is_zero() {
    let toks = tokens("-0");
    assert!(matches!(toks[0], Ok((0, Token::Integer(0), 2))));
}

#[test]
fn comments_and_whitespace_are_skipped() {
    let toks = tokens("  // a comment\n\tx // another");
    assert_eq!(toks.len(), 1);
    assert!(matches!(&toks[0], Ok((16, Token::Identifier(s), 17)) if s == "x"));
}

#[test]
fn lexer_spans_follow_the_base() {
    let mut lexer = Lexer::new(100, "if");
    assert!(matches!(lexer.next(), Some(Ok((100, Token::KeywordIf, 102)))));
    assert!(lexer.next().is_none());
}

#[test]
fn token_display_forms() {
    assert_eq!(Token::Integer(-5).to_display_string(), "integer -5");
    assert_eq!(Token::Integer(42).to_display_string(), "integer 42");
    assert_eq!(Token::Identifier("abc".to_string()).to_display_string(), "id abc");
    assert_eq!(Token::CharLiteral(233).to_display_string(), "character \\x{e9}");
    assert_eq!(Token::CharLiteral(10).to_display_string(), "character \\n");
    assert_eq!(Token::StrLiteral("a\"b".to_string()).to_display_string(), "string a\\\"b");
    assert_eq!(Token::OperatorHighMul.to_display_string(), "*>>");
    assert_eq!(Token::BoolLiteral(false).to_display_string(), "false");
    assert_eq!(Token::BlockOpen.to_display_string(), "{");
}

// ---- --lex log ----

#[test]
fn lex_log_lists_tokens_with_positions() {
    assert_eq!(lex_log("x = 1\n  y"), "1:1 id x\n1:3 =\n1:5 integer 1\n2:3 id y\n");
}

#[test]
fn lex_log_stops_at_the_first_error() {
    assert_eq!(lex_log("a\n'' b"), "1:1 id a\n2:1 error:empty character literal\n");
}

#[test]
fn lex_log_of_nothing_is_empty() {
    assert_eq!(lex_log("  // only a comment\n"), "");
}

#[test]
fn error_log_line_format() {
    assert_eq!(log_error_line("ab\ncd", 4, "Unexpected token"), "2:2 error:Unexpected token\n");
}

// ---- AST ----

#[test]
fn operators_print_as_written() {
    assert_eq!(UOp::Neg.as_str(), "-");
    assert_eq!(UOp::Not.as_str(), "!");
    assert_eq!(BinOp::HighMul.as_str(), "*>>");
    assert_eq!(BinOp::Neq.as_str(), "!=");
    assert_eq!(BinOp::Or.as_str(), "|");
    assert_eq!(BinOp::Ge.as_str(), ">=");
}

#[test]
fn nodes_report_their_spans() {
    let i = Ident { span: sp(3, 7), sym: "main".to_string() };
    assert_eq!(i.span(), sp(3, 7));
}

// ---- types and scopes ----

fn program() -> Program {
    let f = Method {
        span: sp(0, 10),
        id: ident("f"),
        params: vec![Decl { span: sp(2, 3), id: ident("a"), typ: ty(TypeKind::UnsizedArray { of: Box::new(ty(TypeKind::Int)) }) }],
        ret_types: vec![ty(TypeKind::Bool)],
        body: Block { span: sp(5, 10), stmts: vec![] },
    };
    let g = GlobDecl { span: sp(11, 20), id: ident("g"), typ: ty(TypeKind::Int), val: None };
    let g2 = GlobDecl { span: sp(21, 30), id: ident("g"), typ: ty(TypeKind::Bool), val: None };
    Program {
        uses: vec![],
        definitions: vec![
            Definition { span: sp(0, 10), kind: DefinitionKind::Method(f) },
            Definition { span: sp(11, 20), kind: DefinitionKind::GlobDecl(g) },
            Definition { span: sp(20, 21), kind: DefinitionKind::Error },
            Definition { span: sp(21, 30), kind: DefinitionKind::GlobDecl(g2) },
        ],
    }
}

#[test]
fn collect_builds_the_global_scope() {
    let env = collect(&program());
    match env.lookup("f") {
        Some(TyCtx::Fn { from, to }) => {
            assert_eq!(from.len(), 1);
            assert!(matches!(&from[0], CoreTy::Array(inner) if matches!(**inner, CoreTy::Int)));
            assert_eq!(to.len(), 1);
            assert!(matches!(to[0], CoreTy::Bool));
        }
        other => panic!("unexpected {other:?}"),
    }
    assert!(matches!(env.lookup("g"), Some(TyCtx::Var(CoreTy::Bool))), "a later definition replaces an earlier one");
    assert!(env.lookup("h").is_none());
}

#[test]
fn sized_arrays_ignore_their_size() {
    let size = etac::ast::Expr { span: sp(0, 1), kind: etac::ast::ExprKind::Error };
    let k = TypeKind::SizedArray { of: Box::new(ty(TypeKind::Bool)), size: Box::new(size) };
    assert!(matches!(CoreTy::from(&k), CoreTy::Array(inner) if matches!(*inner, CoreTy::Bool)));
}

#[test]
fn inner_scopes_shadow_and_fall_back() {
    let mut env = Env::new();
    env.insert("x".to_string(), TyCtx::Var(CoreTy::Int));
    env.insert("y".to_string(), TyCtx::Var(CoreTy::Int));
    let mut inner = env.new_scope();
    assert!(matches!(inner.lookup("x"), Some(TyCtx::Var(CoreTy::Int))));
    inner.insert("x".to_string(), TyCtx::Var(CoreTy::Bool));
    assert!(matches!(inner.lookup("x"), Some(TyCtx::Var(CoreTy::Bool))));
    assert!(matches!(inner.lookup("y"), Some(TyCtx::Var(CoreTy::Int))));
    assert!(matches!(inner.global_env().lookup("x"), Some(TyCtx::Var(CoreTy::Int))));
    assert!(inner.lookup("z").is_none());
}

// ---- driver ----

#[test]
fn parse_path_classifies_by_extension() {
    let mut dcx = DiagCtxt::new();
    let mut names = FileNames::new();
    let p = parse_path(&mut dcx, &mut names, "dir/main.eta").unwrap();
    assert!(matches!(p, File::Program(_)));
    let i = parse_path(&mut dcx, &mut names, "io.eti").unwrap();
    assert!(matches!(i, File::Interface(_)));
    assert!(parse_path(&mut dcx, &mut names, "notes.txt").is_err());
    assert!(parse_path(&mut dcx, &mut names, "Makefile").is_err());
    assert_eq!(dcx.err_count(), 2);
    assert_eq!(dcx.diagnostics()[0].message, "unknown file type txt");
    assert_eq!(dcx.diagnostics()[1].message, "unknown file type ");
    let File::Program(id) = p else { unreachable!() };
    assert_eq!(id.as_str(&names), "dir/main.eta");
}

#[test]
fn use_interfaces_sit_next_to_the_program() {
    let mut names = FileNames::new();
    let me = FileId::new(&mut names, "src/main.eta").unwrap();
    let iid = find_use_interface(&mut names, me, "io");
    assert_eq!(iid.as_str(&names), "src/io.eti");
    let top = FileId::new(&mut names, "main.eta").unwrap();
    let iid = find_use_interface(&mut names, top, "conv");
    assert_eq!(iid.as_str(&names), "conv.eti");
}

#[test]
fn load_errors_blame_the_use() {
    let d = load_error(LoadBlame::CommandLine, "a.eta", "No such file");
    assert_eq!(d.message, "No such file");
    assert!(d.loc.is_none());
    let d = load_error(LoadBlame::Use(sp(4, 10)), "io.eti", "No such file");
    assert_eq!(d.message, "cannot load interface file `io.eti`: No such file");
    assert_eq!(d.loc, Some(sp(4, 10)));
    assert_eq!(d.labels[0].1, "required by this `use`");
}

#[test]
fn outcome_follows_the_error_count() {
    let mut dcx = DiagCtxt::new();
    dcx.emit(Diagnostic::new(Level::Warning, None, "careful".to_string()));
    let ok = outcome(&dcx).unwrap();
    assert_eq!(ok.warnings, 1);
    dcx.emit(Diagnostic::error_no_span("broken".to_string()));
    let failed = outcome(&dcx).err().unwrap();
    assert_eq!((failed.errors, failed.warnings), (1, 1));
}

// ---- syntax errors ----

#[test]
fn expected_lists() {
    let none: Vec<String> = vec![];
    assert_eq!(format_expected(&none), "expected nothing");
    assert_eq!(format_expected(&vec!["\")\"".to_string()]), "expected \")\"");
    assert_eq!(format_expected(&vec!["a".to_string(), "b".to_string()]), "expected one of a, or b");
    assert_eq!(format_expected(&vec!["a".to_string(), "b".to_string(), "c".to_string()]), "expected one of a, b, or c");
}

#[test]
fn syntax_errors_become_diagnostics() {
    let d = to_diag(SyntaxError::UnrecognizedToken { lo: 3, token: Token::RParen, hi: 4, expected: vec!["id".to_string()] });
    assert_eq!(d.message, "Unexpected token )");
    assert_eq!(d.loc, Some(sp(3, 4)));
    assert_eq!(d.labels[0].1, "expected id");
    let d = to_diag(SyntaxError::UnrecognizedEof { location: 9, expected: vec![] });
    assert_eq!(d.message, "Unexpected end of file");
    assert_eq!(d.loc, Some(sp(9, 9)));
    assert_eq!(d.labels[0].1, "expected nothing");
    let d = to_diag(SyntaxError::ExtraToken { lo: 1, token: Token::Integer(7), hi: 2 });
    assert_eq!(d.message, "Extra token integer 7 after program");
    assert_eq!(d.labels[0].1, "unexpected");
    let user = Diagnostic::error(sp(0, 1), "unknown token".to_string());
    let d = to_diag(SyntaxError::User { error: user });
    assert_eq!(d.message, "unknown token");
}

// ---- session ----

#[test]
fn single_dash_path_flags_are_normalized() {
    assert_eq!(normalize_arg("-sourcepath"), "--sourcepath");
    assert_eq!(normalize_arg("-libpath=lib"), "--libpath=lib");
    assert_eq!(normalize_arg("-sourcepath=a=b"), "--sourcepath=a=b");
    assert_eq!(normalize_arg("--sourcepath"), "--sourcepath");
    assert_eq!(normalize_arg("-sourcepathx"), "-sourcepathx");
    assert_eq!(normalize_arg("-l"), "-l");
    assert_eq!(normalize_arg(&normalize_arg("-libpath")), "--libpath");
}

fn flags(lex: bool, parse: bool, diag: &str) -> Flags {
    Flags {
        lex,
        parse,
        diag_path: diag.to_string(),
        source_path: ".".to_string(),
        lib_path: ".".to_string(),
        source_files: vec!["main.eta".to_string()],
    }
}

#[test]
fn logger_places_logs() {
    let l = Logger::new(&flags(true, false, "out"));
    assert!(l.needs_diag_dir());
    assert_eq!(l.log_path("sub/main.eta", "lexed"), Some("out/sub/main.lexed".to_string()));
    let l = Logger::new(&flags(true, true, "-"));
    assert!(!l.needs_diag_dir());
    assert_eq!(l.log_path("main.eta", "parsed"), None);
    let l = Logger::new(&flags(false, false, "out"));
    assert!(!l.needs_diag_dir());
}

// ---- reports ----

#[test]
fn reports_point_into_files() {
    let mut cache = EtaCache::new();
    cache.store_source("a.eta", "abc".to_string());
    let b = cache.store_source("b.eta", "xyz".to_string());
    let base = cache.base_offset(b) as u32;
    let d = Diagnostic::error(sp(base + 1, base + 2), "bad".to_string())
        .with_primary_label("here".to_string())
        .with_note("note".to_string());
    let p = plan(&cache, d);
    assert_eq!(p.kind, ReportKind::Error);
    assert_eq!(p.place, Place { file: Some(b), start: 1, end: 2 });
    assert_eq!(p.labels[0].place, Place { file: Some(b), start: 1, end: 2 });
    assert_eq!(p.labels[0].message, "here");
    assert_eq!(p.note.as_deref(), Some("note"));

    let d = Diagnostic::new(Level::Note, None, "fyi".to_string()).with_label(sp(0, 1), "x".to_string());
    let p = plan(&cache, d);
    assert_eq!(p.kind, ReportKind::Advice);
    assert_eq!(p.place, Place { file: None, start: 0, end: 0 });
    assert_eq!(p.labels[0].place, Place { file: None, start: 0, end: 0 });
}

// ---- small pieces ----

#[test]
fn generated_test_names_are_identifiers() {
    assert_eq!(sanitize("ex-1.b"), "ex_1_b");
    assert_eq!(sanitize("Ok9"), "Ok9");
    assert_eq!(sanitize("é x"), "__x");
    assert_eq!(test_name("lex", "pa1-ratadd"), "lex_pa1_ratadd");
}

#[test]
fn span_annotations() {
    assert!(Plain.annotate(NodeId::from_raw(3)).is_none());
    let ctx = SpanCtx::new(|id: NodeId| if id.as_u32() == 1 { Some("1:1-1:4".to_string()) } else { None });
    assert_eq!(ctx.annotate(NodeId::from_raw(1)), Some("@1:1-1:4".to_string()));
    assert_eq!(ctx.annotate(NodeId::from_raw(2)), None);
}

#[test]
fn testing_cache_stores_each_name_once() {
    let mut c = TestingCache::new();
    let (a, text) = c.store("a.eta".to_string(), "first".to_string());
    assert_eq!(text, "first");
    let (b, _) = c.store("b.eta".to_string(), "other".to_string());
    let (a2, text) = c.store("a.eta".to_string(), "second".to_string());
    assert_eq!(a, a2);
    assert_eq!(text, "first");
    assert_ne!(a, b);
    assert_eq!(c.contains("b.eta"), Some(b));
    assert_eq!(c.contains("c.eta"), None);
    assert_eq!(c.load_name(b), "b.eta");
    assert_eq!(c.load_source(b), "other");
}

#[test]
fn eta_spans_hold_a_local_range() {
    let mut names = FileNames::new();
    let id = FileId::new(&mut names, "main.eta").unwrap();
    let s = EtaSpan::new(id, 2, 5);
    assert_eq!(s.file_id, id);
    assert_eq!(s.range, 2..5);
}

// ---- running the front end ----

fn disk(path: &str) -> Result<String, String> {
    match path {
        "main.eta" => Ok("main() { x:int = 1 }\n".to_string()),
        "io.eti" => Ok("print(s: int[])\n".to_string()),
        "bad.eta" => Ok("x = '' y = 'ab' z\n".to_string()),
        _ => Err("No such file or directory (os error 2)".to_string()),
    }
}

fn run_flags(files: &[&str], lex: bool) -> Flags {
    Flags {
        lex,
        parse: false,
        diag_path: "out".to_string(),
        source_path: ".".to_string(),
        lib_path: ".".to_string(),
        source_files: files.iter().map(|f| f.to_string()).collect(),
    }
}

#[test]
fn run_loads_each_file_once() {
    let c = etac::driver::run(&run_flags(&["main.eta", "io.eti", "main.eta"], true), &disk);
    assert!(c.outcome.is_ok());
    assert_eq!(c.dcx.err_count(), 0);
    assert!(c.cache.source_id("main.eta").is_some());
    assert!(c.cache.source_id("io.eti").is_some());
    assert_eq!(c.lex_logs.len(), 2);
    assert_eq!(c.lex_logs[0].0.as_deref(), Some("out/main.lexed"));
    assert!(c.lex_logs[0].1.starts_with("1:1 id main\n1:5 (\n1:6 )\n1:8 {\n"));
    assert_eq!(c.lex_logs[1].0.as_deref(), Some("out/io.lexed"));
}

#[test]
fn run_stops_at_an_unusable_path() {
    let c = etac::driver::run(&run_flags(&["main.eta", "notes.txt", "io.eti"], false), &disk);
    let failure = c.outcome.err().unwrap();
    assert_eq!((failure.errors, failure.warnings), (1, 0));
    assert_eq!(c.dcx.diagnostics()[0].message, "unknown file type txt");
    assert!(c.cache.source_id("main.eta").is_none());
}

#[test]
fn run_reports_every_lexical_error_and_missing_file() {
    let c = etac::driver::run(&run_flags(&["bad.eta", "gone.eta"], false), &disk);
    let failure = c.outcome.err().unwrap();
    assert_eq!(failure.errors, 3);
    let messages: Vec<&str> = c.dcx.diagnostics().iter().map(|d| d.message.as_str()).collect();
    assert_eq!(
        messages,
        vec!["empty character literal", "character literal holds more than one character", "No such file or directory (os error 2)"]
    );
    assert!(c.lex_logs.is_empty());
}

fn rooted_disk(path: &str) -> Result<String, String> {
    match path {
        "root/main.eta" => Ok("main() { }\n".to_string()),
        "/abs/io.eti" => Ok("print(s: int[])\n".to_string()),
        _ => Err("No such file or directory (os error 2)".to_string()),
    }
}

#[test]
fn run_resolves_relative_paths_against_the_source_path() {
    let mut flags = run_flags(&["main.eta", "/abs/io.eti"], true);
    flags.source_path = "root".to_string();
    let c = etac::driver::run(&flags, &rooted_disk);
    assert!(c.outcome.is_ok());
    assert_eq!(c.dcx.err_count(), 0);
    assert!(c.cache.source_id("root/main.eta").is_some());
    assert!(c.cache.source_id("main.eta").is_none());
    assert!(c.cache.source_id("/abs/io.eti").is_some());
    assert_eq!(c.lex_logs[0].0.as_deref(), Some("out/root/main.lexed"));
}

#[test]
fn run_with_the_default_source_path_reads_paths_as_typed() {
    let c = etac::driver::run(&run_flags(&["main.eta"], false), &rooted_disk);
    let failure = c.outcome.err().unwrap();
    assert_eq!(failure.errors, 1);
    assert_eq!(c.dcx.diagnostics()[0].message, "No such file or directory (os error 2)");
}

#[test]
fn interning_a_name_twice_gives_its_first_id() {
    let mut names = FileNames::new();
    let a = names.intern("a.eta").unwrap();
    let b = names.intern("b.eta").unwrap();
    let a2 = names.intern("a.eta").unwrap();
    assert_eq!(a, a2);
    assert_ne!(a, b);
    assert_eq!((a.index, b.index), (0, 1));
    assert_eq!(names.len(), 2);
    assert_eq!(names.name_of(a), "a.eta");
}

#[test]
fn stored_files_read_back_after_later_stores() {
    let mut cache = EtaCache::new();
    let a = cache.store_source("a.eta", "first".to_string());
    let b = cache.store_source("b.eta", "second".to_string());
    assert_eq!(cache.base_offset(a), 0);
    assert_eq!(cache.base_offset(b), "first".len() + 1);
    assert_eq!(cache.source_text(a), "first");
    assert_eq!(cache.source_text(b), "second");
    let a2 = cache.store_source("a.eta", "changed".to_string());
    assert_eq!(a2, a);
    assert_eq!(cache.source_text(a), "first");
    assert_eq!(cache.base_offset(a), 0);
}

#[test]
fn unplaceable_diagnostics_are_planned_without_source() {
    let mut cache = EtaCache::new();
    let d = Diagnostic::error(sp(1, 2), "far".to_string()).with_primary_label("there".to_string());
    let p = plan_any(&cache, d);
    assert_eq!(p.place, Place { file: None, start: 0, end: 0 });
    assert_eq!(p.labels[0].place, Place { file: None, start: 0, end: 0 });
    cache.store_source("a.eta", "abc".to_string());
    let d = Diagnostic::error(sp(2, 1), "far".to_string()).with_primary_label("there".to_string());
    let p = plan_any(&cache, d);
    assert_eq!(p.place, Place { file: None, start: 0, end: 0 });
    assert_eq!(p.labels[0].place, Place { file: None, start: 0, end: 0 });
    assert_eq!(p.message, "far");
    let d = Diagnostic::error(sp(1, 2), "near".to_string());
    let p = plan_any(&cache, d);
    assert!(p.place.file.is_some());
    assert_eq!((p.place.start, p.place.end), (1, 2));
}

#[test]
fn plan_keeps_first_mentions_in_order() {
    let mut dcx = DiagCtxt::new();
    let mut names = FileNames::new();
    let paths = vec!["b.eta".to_string(), "a.eti".to_string(), "b.eta".to_string(), "c.eta".to_string()];
    let files = etac::driver::plan_files(&mut dcx, &mut names, &paths).unwrap();
    let shown: Vec<String> = files
        .iter()
        .map(|f| match f {
            File::Program(id) => format!("program {}", id.as_str(&names)),
            File::Interface(id) => format!("interface {}", id.as_str(&names)),
        })
        .collect();
    assert_eq!(shown, vec!["program b.eta", "interface a.eti", "program c.eta"]);
}

// ---- declarations ----

fn decl_method(name: &str, lo: u32) -> etac::ast::MethodDecl {
    etac::ast::MethodDecl {
        span: sp(lo, lo + 5),
        id: ident(name),
        params: vec![Decl { span: sp(lo, lo + 1), id: ident("x"), typ: ty(TypeKind::Int) }],
        ret_types: vec![],
    }
}

#[test]
fn methods_declared_twice_are_reported_at_the_first() {
    let mut env = etac::context::Env::new();
    let mut dcx = DiagCtxt::new();
    assert!(decl_method("f", 0).typecheck(&mut env, &mut dcx).is_ok());
    assert!(decl_method("g", 10).typecheck(&mut env, &mut dcx).is_ok());
    assert!(decl_method("f", 20).typecheck(&mut env, &mut dcx).is_err());
    assert_eq!(dcx.err_count(), 1);
    let d = &dcx.diagnostics()[0];
    assert_eq!(d.message, "method f already exists");
    assert_eq!(d.loc, Some(sp(0, 5)));
    assert_eq!(d.labels[0].1, "method first defined here");
    let f = env.scopes.lookup_fn("f").unwrap();
    assert_eq!(f.declared, sp(0, 5));
    assert_eq!(f.ty.from.len(), 1);
}

#[test]
fn globals_declared_twice_are_reported() {
    let mut env = etac::context::Env::new();
    let mut dcx = DiagCtxt::new();
    let g = GlobDecl { span: sp(1, 9), id: ident("n"), typ: ty(TypeKind::Int), val: None };
    let again = GlobDecl { span: sp(10, 19), id: ident("n"), typ: ty(TypeKind::Bool), val: None };
    assert!(g.typecheck(&mut env, &mut dcx).is_ok());
    assert!(again.typecheck(&mut env, &mut dcx).is_err());
    assert_eq!(dcx.diagnostics()[0].message, "variable n already exists");
    assert!(matches!(env.scopes.lookup_var("n").unwrap().ty, CoreTy::Int));
}

#[test]
fn scopes_shadow_and_close() {
    let mut s = etac::context::Scopes::new();
    assert!(s.declare_var(sp(0, 1), "x".to_string(), CoreTy::Int).is_ok());
    s.push();
    assert!(s.declare_var(sp(2, 3), "x".to_string(), CoreTy::Bool).is_ok(), "an inner scope may reuse a name");
    assert!(matches!(s.lookup_var("x").unwrap().ty, CoreTy::Bool));
    let err = s.declare_var(sp(4, 5), "x".to_string(), CoreTy::Int).err().unwrap();
    assert_eq!(err.declared, sp(2, 3));
    s.declare_ret_type(sp(6, 7), vec![CoreTy::Int]);
    assert_eq!(s.lookup_ret().unwrap().declared, sp(6, 7));
    s.pop();
    assert!(matches!(s.lookup_var("x").unwrap().ty, CoreTy::Int));
    assert!(s.lookup_ret().is_none());
    assert!(s.lookup_fn("x").is_none());
}

#[test]
fn every_lexical_error_is_reported() {
    let mut dcx = DiagCtxt::new();
    etac::driver::report_lexical_errors(&mut dcx, "a # b '' c \"\\q\"", 10);
    let shown: Vec<(String, Option<Span>)> = dcx.diagnostics().iter().map(|d| (d.message.clone(), d.loc)).collect();
    assert_eq!(
        shown,
        vec![
            ("unknown token".to_string(), Some(sp(12, 13))),
            ("empty character literal".to_string(), Some(sp(16, 18))),
            ("unknown escape: '\\q' is not a recognized escape sequence".to_string(), Some(sp(22, 24))),
        ]
    );
}

#[test]
fn interactive_reports_of_syntax_errors() {
    let d = lexical_error(
        SyntaxError::UnrecognizedToken {
            lo: 1,
            token: Token::Comma,
            hi: 2,
            expected: vec!["\"(\"".to_string(), "\"[\"".to_string()],
        }
        .shown(),
    );
    assert_eq!(d.message, "Unrecognized token: ,");
    assert_eq!(d.labels[0], (sp(1, 2), "Unexpected token".to_string()));
    assert_eq!(d.note.as_deref(), Some("Expected one of: \"(\", \"[\""));
    let d = lexical_error(SyntaxError::UnrecognizedEof { location: 5, expected: vec!["id".to_string()] }.shown());
    assert_eq!(d.message, "Unexpected end of file");
    assert_eq!(d.labels[0], (sp(5, 5), "Expected more code here".to_string()));
    assert_eq!(d.note.as_deref(), Some("Expected one of: id"));
    let d = lexical_error(SyntaxError::InvalidToken { location: 7 }.shown());
    assert_eq!(d.message, "Invalid token");
    assert_eq!(d.labels[0], (sp(7, 8), "Failed to recognize this character".to_string()));
    assert!(d.note.is_none());
    let d = lexical_error(SyntaxError::ExtraToken { lo: 3, token: Token::KeywordIf, hi: 5 }.shown());
    assert_eq!(d.message, "Extra token: if");
    assert_eq!(d.labels[0].1, "Parser finished before this");
    let d = lexical_error(SyntaxError::User { error: Diagnostic::error_no_span("oops".to_string()) }.shown());
    assert_eq!(d.message, "User error: oops");
    assert!(d.labels.is_empty());
}

#[test]
fn interactive_reports_show_any_displayed_token() {
    let d = lexical_error(ShownSyntaxError::UnrecognizedToken {
        lo: 2,
        token: "x".to_string(),
        hi: 3,
        expected: vec!["a".to_string(), "b".to_string()],
    });
    assert_eq!(d.level, Level::Error);
    assert_eq!(d.message, "Unrecognized token: x");
    assert_eq!(d.labels, vec![(sp(2, 3), "Unexpected token".to_string())]);
    assert_eq!(d.note.as_deref(), Some("Expected one of: a, b"));
    let d = lexical_error(ShownSyntaxError::InvalidToken { location: 5 });
    assert_eq!(d.labels, vec![(sp(5, 6), "Failed to recognize this character".to_string())]);
    assert!(d.note.is_none());
    let d = lexical_error(ShownSyntaxError::User { error: "bad".to_string() });
    assert_eq!(d.message, "User error: bad");
}

#[test]
fn token_text_matches_the_source() {
    let src = "while x' *>> -42 != 007";
    let toks = tokens(src);
    let shown: Vec<(String, String)> = toks
        .iter()
        .map(|t| match t {
            Ok((lo, tok, hi)) => (src[*lo..*hi].to_string(), tok.to_display_string()),
            Err(d) => (String::new(), d.message.clone()),
        })
        .collect();
    assert_eq!(
        shown,
        vec![
            ("while".to_string(), "while".to_string()),
            ("x'".to_string(), "id x'".to_string()),
            ("*>>".to_string(), "*>>".to_string()),
            ("-42".to_string(), "integer -42".to_string()),
            ("!=".to_string(), "!=".to_string()),
            ("0".to_string(), "integer 0".to_string()),
            ("0".to_string(), "integer 0".to_string()),
            ("7".to_string(), "integer 7".to_string()),
        ]
    );
}

#[test]
fn handing_out_twice_gives_nothing_the_second_time() {
    let mut cache = EtaCache::new();
    let mut r = etac::resolve::Resolver::new(".", ".");
    let first = r.classify_cli(&mut cache, "a.eti", Ok("f()".to_string())).unwrap();
    assert!(matches!(first, Some(File::Interface(_))));
    let Some(File::Interface(id)) = first else { unreachable!() };
    assert_eq!(r.admit_use(id), None);
    assert_eq!(r.admit_use(id), None);
}

#[test]
fn character_tokens_must_hold_scalar_values() {
    assert!(Token::CharLiteral(0x41).is_well_formed());
    assert!(!Token::CharLiteral(0xD800).is_well_formed());
    assert!(!Token::CharLiteral(0x110000).is_well_formed());
    assert!(Token::StrLiteral("é".to_string()).is_well_formed());
    assert!(Token::Comma.is_well_formed());
}

#[test]
fn span_map_reads_back_what_it_allocated() {
    let mut m = SpanMap::new();
    let a = m.alloc_span(sp(1, 4));
    let b = m.alloc_span(sp(6, 9));
    assert_eq!((a.as_u32(), b.as_u32()), (0, 1));
    assert_eq!(m.span(a), sp(1, 4));
    assert_eq!(m.span(b), sp(6, 9));
    assert_eq!(m.span(NodeId::dummy()), Span::dummy());
}

#[test]
fn positions_follow_ariadnes_line_breaks() {
    let mut cache = EtaCache::new();
    let id = cache.store_source("a.eta", "a\r\nb\u{2028}c\rd".to_string());
    let base = cache.base_offset(id) as u32;
    assert_eq!(cache.line_column(base + 2), (1, 3));
    assert_eq!(cache.line_column(base + 3), (2, 1));
    assert_eq!(cache.line_column(base + 5), (2, 3));
    assert_eq!(cache.line_column(base + 7), (3, 1));
    assert_eq!(cache.line_column(base + 9), (4, 1));
    assert_eq!(cache.line_column(base + 10), (4, 2));
}
