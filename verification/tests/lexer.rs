//! Lexer scenarios: each source is stored as `src0` in a fresh cache and
//! every token (or the first diagnostic) is printed with its line/column
//! range.

use etac::cache::EtaCache;
use etac::lexer::Lexer;
use etac::source_map::FileId;
use etac::span::Span;

fn location(cache: &EtaCache, lo: u32, hi: u32) -> String {
    let file = cache.source_name(cache.resolve_span(Span::new(lo, hi)).1);
    let (line_start, column_start) = cache.line_column(lo);
    let (line_end, column_end) = cache.line_column(hi);
    format!("{file}:{line_start}:{column_start}..{line_end}:{column_end}")
}

fn lex(cache: &EtaCache, file_id: FileId) -> String {
    let mut out = String::new();
    let mut lexer = Lexer::new(cache.base_offset(file_id), cache.source_text(file_id));
    while let Some(item) = lexer.next() {
        match item {
            Ok((lo, tok, hi)) => {
                out.push_str(&format!("{} {tok:?}\n", location(cache, lo as u32, hi as u32)));
            }
            Err(diag) => {
                let note = diag.note.as_deref().unwrap_or("");
                let mut labels = String::new();
                for (span, message) in diag.labels.iter() {
                    labels.push_str(&format!("\n\t{} {message:?}\n", location(cache, span.lo, span.hi)));
                }
                let diag_str = format!(
                    "{:?} {{\n\tmessage: {}\n\tnote: {note}{labels}}}",
                    diag.level, diag.message
                );
                match diag.loc {
                    Some(s) => {
                        out.push_str(&format!("{} {diag_str}\n", location(cache, s.lo, s.hi)));
                    }
                    None => {
                        out.push_str(&format!("{diag_str}\n"));
                    }
                }
                break;
            }
        }
    }
    out
}

fn check(source: &str, expected: &str) {
    let mut cache = EtaCache::new();
    let id = cache.store_source("src0", source.to_owned());
    assert_eq!(lex(&cache, id), expected);
}

#[test]
fn add() {
    check(
        "+++",
        "src0:1:1..1:2 OperatorAdd\nsrc0:1:2..1:3 OperatorAdd\nsrc0:1:3..1:4 OperatorAdd\n",
    );
}

#[test]
fn arrayinit() {
    check(
        "a: int[] = {72,101,108,108,111}\na: int[] = \"Hello\"\n",
        "src0:1:1..1:2 Identifier(\"a\")\nsrc0:1:2..1:3 OfType\nsrc0:1:4..1:7 KeywordInt\nsrc0:1:7..1:8 LBracket\nsrc0:1:8..1:9 RBracket\nsrc0:1:10..1:11 Assign\nsrc0:1:12..1:13 BlockOpen\nsrc0:1:13..1:15 Integer(72)\nsrc0:1:15..1:16 Comma\nsrc0:1:16..1:19 Integer(101)\nsrc0:1:19..1:20 Comma\nsrc0:1:20..1:23 Integer(108)\nsrc0:1:23..1:24 Comma\nsrc0:1:24..1:27 Integer(108)\nsrc0:1:27..1:28 Comma\nsrc0:1:28..1:31 Integer(111)\nsrc0:1:31..1:32 BlockClose\nsrc0:2:1..2:2 Identifier(\"a\")\nsrc0:2:2..2:3 OfType\nsrc0:2:4..2:7 KeywordInt\nsrc0:2:7..2:8 LBracket\nsrc0:2:8..2:9 RBracket\nsrc0:2:10..2:11 Assign\nsrc0:2:12..2:19 StrLiteral(\"Hello\")\n",
    );
}

#[test]
fn arrayinit2() {
    check(
        "n: int = gcd(10, 2)\na: int[n]\nwhile (n > 0) {\n  n = n - 1\n  a[n] = n\n}\n",
        "src0:1:1..1:2 Identifier(\"n\")\nsrc0:1:2..1:3 OfType\nsrc0:1:4..1:7 KeywordInt\nsrc0:1:8..1:9 Assign\nsrc0:1:10..1:13 Identifier(\"gcd\")\nsrc0:1:13..1:14 LParen\nsrc0:1:14..1:16 Integer(10)\nsrc0:1:16..1:17 Comma\nsrc0:1:18..1:19 Integer(2)\nsrc0:1:19..1:20 RParen\nsrc0:2:1..2:2 Identifier(\"a\")\nsrc0:2:2..2:3 OfType\nsrc0:2:4..2:7 KeywordInt\nsrc0:2:7..2:8 LBracket\nsrc0:2:8..2:9 Identifier(\"n\")\nsrc0:2:9..2:10 RBracket\nsrc0:3:1..3:6 KeywordWhile\nsrc0:3:7..3:8 LParen\nsrc0:3:8..3:9 Identifier(\"n\")\nsrc0:3:10..3:11 RelOpGr\nsrc0:3:12..3:13 Integer(0)\nsrc0:3:13..3:14 RParen\nsrc0:3:15..3:16 BlockOpen\nsrc0:4:3..4:4 Identifier(\"n\")\nsrc0:4:5..4:6 Assign\nsrc0:4:7..4:8 Identifier(\"n\")\nsrc0:4:9..4:10 Minus\nsrc0:4:11..4:12 Integer(1)\nsrc0:5:3..5:4 Identifier(\"a\")\nsrc0:5:4..5:5 LBracket\nsrc0:5:5..5:6 Identifier(\"n\")\nsrc0:5:6..5:7 RBracket\nsrc0:5:8..5:9 Assign\nsrc0:5:10..5:11 Identifier(\"n\")\nsrc0:6:1..6:2 BlockClose\n",
    );
}

#[test]
fn badescape() {
    check(
        "This is not a Unicode char: \\x{ffffff}\n",
        "src0:1:1..1:5 Identifier(\"This\")\nsrc0:1:6..1:8 Identifier(\"is\")\nsrc0:1:9..1:12 Identifier(\"not\")\nsrc0:1:13..1:14 Identifier(\"a\")\nsrc0:1:15..1:22 Identifier(\"Unicode\")\nsrc0:1:23..1:27 Identifier(\"char\")\nsrc0:1:27..1:28 OfType\nsrc0:1:29..1:30 Error {\n\tmessage: unknown token\n\tnote: \n\tsrc0:1:29..1:30 \"this token\"\n}\n",
    );
}

#[test]
fn beauty() {
    check(
        "===============================================================================\n= This is a beautiful document heading, not a xi program, but it still lexes! =\n===============================================================================\n",
        "src0:1:1..1:3 RelOpEq\nsrc0:1:3..1:5 RelOpEq\nsrc0:1:5..1:7 RelOpEq\nsrc0:1:7..1:9 RelOpEq\nsrc0:1:9..1:11 RelOpEq\nsrc0:1:11..1:13 RelOpEq\nsrc0:1:13..1:15 RelOpEq\nsrc0:1:15..1:17 RelOpEq\nsrc0:1:17..1:19 RelOpEq\nsrc0:1:19..1:21 RelOpEq\nsrc0:1:21..1:23 RelOpEq\nsrc0:1:23..1:25 RelOpEq\nsrc0:1:25..1:27 RelOpEq\nsrc0:1:27..1:29 RelOpEq\nsrc0:1:29..1:31 RelOpEq\nsrc0:1:31..1:33 RelOpEq\nsrc0:1:33..1:35 RelOpEq\nsrc0:1:35..1:37 RelOpEq\nsrc0:1:37..1:39 RelOpEq\nsrc0:1:39..1:41 RelOpEq\nsrc0:1:41..1:43 RelOpEq\nsrc0:1:43..1:45 RelOpEq\nsrc0:1:45..1:47 RelOpEq\nsrc0:1:47..1:49 RelOpEq\nsrc0:1:49..1:51 RelOpEq\nsrc0:1:51..1:53 RelOpEq\nsrc0:1:53..1:55 RelOpEq\nsrc0:1:55..1:57 RelOpEq\nsrc0:1:57..1:59 RelOpEq\nsrc0:1:59..1:61 RelOpEq\nsrc0:1:61..1:63 RelOpEq\nsrc0:1:63..1:65 RelOpEq\nsrc0:1:65..1:67 RelOpEq\nsrc0:1:67..1:69 RelOpEq\nsrc0:1:69..1:71 RelOpEq\nsrc0:1:71..1:73 RelOpEq\nsrc0:1:73..1:75 RelOpEq\nsrc0:1:75..1:77 RelOpEq\nsrc0:1:77..1:79 RelOpEq\nsrc0:1:79..1:80 Assign\nsrc0:2:1..2:2 Assign\nsrc0:2:3..2:7 Identifier(\"This\")\nsrc0:2:8..2:10 Identifier(\"is\")\nsrc0:2:11..2:12 Identifier(\"a\")\nsrc0:2:13..2:22 Identifier(\"beautiful\")\nsrc0:2:23..2:31 Identifier(\"document\")\nsrc0:2:32..2:39 Identifier(\"heading\")\nsrc0:2:39..2:40 Comma\nsrc0:2:41..2:44 Identifier(\"not\")\nsrc0:2:45..2:46 Identifier(\"a\")\nsrc0:2:47..2:49 Identifier(\"xi\")\nsrc0:2:50..2:57 Identifier(\"program\")\nsrc0:2:57..2:58 Comma\nsrc0:2:59..2:62 Identifier(\"but\")\nsrc0:2:63..2:65 Identifier(\"it\")\nsrc0:2:66..2:71 Identifier(\"still\")\nsrc0:2:72..2:77 Identifier(\"lexes\")\nsrc0:2:77..2:78 OperatorNot\nsrc0:2:79..2:80 Assign\nsrc0:3:1..3:3 RelOpEq\nsrc0:3:3..3:5 RelOpEq\nsrc0:3:5..3:7 RelOpEq\nsrc0:3:7..3:9 RelOpEq\nsrc0:3:9..3:11 RelOpEq\nsrc0:3:11..3:13 RelOpEq\nsrc0:3:13..3:15 RelOpEq\nsrc0:3:15..3:17 RelOpEq\nsrc0:3:17..3:19 RelOpEq\nsrc0:3:19..3:21 RelOpEq\nsrc0:3:21..3:23 RelOpEq\nsrc0:3:23..3:25 RelOpEq\nsrc0:3:25..3:27 RelOpEq\nsrc0:3:27..3:29 RelOpEq\nsrc0:3:29..3:31 RelOpEq\nsrc0:3:31..3:33 RelOpEq\nsrc0:3:33..3:35 RelOpEq\nsrc0:3:35..3:37 RelOpEq\nsrc0:3:37..3:39 RelOpEq\nsrc0:3:39..3:41 RelOpEq\nsrc0:3:41..3:43 RelOpEq\nsrc0:3:43..3:45 RelOpEq\nsrc0:3:45..3:47 RelOpEq\nsrc0:3:47..3:49 RelOpEq\nsrc0:3:49..3:51 RelOpEq\nsrc0:3:51..3:53 RelOpEq\nsrc0:3:53..3:55 RelOpEq\nsrc0:3:55..3:57 RelOpEq\nsrc0:3:57..3:59 RelOpEq\nsrc0:3:59..3:61 RelOpEq\nsrc0:3:61..3:63 RelOpEq\nsrc0:3:63..3:65 RelOpEq\nsrc0:3:65..3:67 RelOpEq\nsrc0:3:67..3:69 RelOpEq\nsrc0:3:69..3:71 RelOpEq\nsrc0:3:71..3:73 RelOpEq\nsrc0:3:73..3:75 RelOpEq\nsrc0:3:75..3:77 RelOpEq\nsrc0:3:77..3:79 RelOpEq\nsrc0:3:79..3:80 Assign\n",
    );
}

#[test]
fn consecutive_operators() {
    check(
        "a+-b\n!-x\n--x\n",
        "src0:1:1..1:2 Identifier(\"a\")\nsrc0:1:2..1:3 OperatorAdd\nsrc0:1:3..1:4 Minus\nsrc0:1:4..1:5 Identifier(\"b\")\nsrc0:2:1..2:2 OperatorNot\nsrc0:2:2..2:3 Minus\nsrc0:2:3..2:4 Identifier(\"x\")\nsrc0:3:1..3:2 Minus\nsrc0:3:2..3:3 Minus\nsrc0:3:3..3:4 Identifier(\"x\")\n",
    );
}

#[test]
fn empty_hex_escape() {
    check(
        "\"\\x{}\"\n",
        "src0:1:2..1:5 Error {\n\tmessage: empty unicode escape expected non-empty hex between '{{' and '}}'\n\tnote: \n\tsrc0:1:2..1:5 \"expected non-empty hex here\"\n}\n",
    );
}

#[test]
fn error_escape_q() {
    check(
        "\"\\q\"\n",
        "src0:1:2..1:4 Error {\n\tmessage: unknown escape: '\\q' is not a recognized escape sequence\n\tnote: valid escapes: '\\n', '\\t', '\\r', '\\\\', '\\'', '\\\"', '\\0', '\\x{..}'\n\tsrc0:1:2..1:4 \"this isn't a recognized escape sequence\"\n}\n",
    );
}

#[test]
fn error_escape_space() {
    check(
        "\"\\ \\ \\ \"\n",
        "src0:1:2..1:4 Error {\n\tmessage: unknown escape: '\\ ' is not a recognized escape sequence\n\tnote: valid escapes: '\\n', '\\t', '\\r', '\\\\', '\\'', '\\\"', '\\0', '\\x{..}'\n\tsrc0:1:2..1:4 \"this isn't a recognized escape sequence\"\n}\n",
    );
}

#[test]
fn error_escape_x() {
    check(
        "\"\\x\"\n",
        "src0:1:2..1:4 Error {\n\tmessage: expected '{{' after '\\x'\n\tnote: \n\tsrc0:1:2..1:4 \"at this escape sequence\"\n}\n",
    );
}

#[test]
fn escape_double_quote() {
    check(
        "'\\\"'\n\"say \\\"hi\\\"!\"\n",
        "src0:1:1..1:5 CharLiteral(34)\nsrc0:2:1..2:14 StrLiteral(\"say \\\"hi\\\"!\")\n",
    );
}

#[test]
fn escape_hex_newline() {
    check(
        "'\\x{0a}'\n\"\\x{0a}\"\n",
        "src0:1:1..1:9 CharLiteral(10)\nsrc0:2:1..2:9 StrLiteral(\"\\n\")\n",
    );
}

#[test]
fn escape_null_cr() {
    check(
        "'\\0'\n'\\r'\n\"\\0\\r\"\n",
        "src0:1:1..1:5 CharLiteral(0)\nsrc0:2:1..2:5 CharLiteral(13)\nsrc0:3:1..3:7 StrLiteral(\"\\0\\r\")\n",
    );
}

#[test]
fn escapes() {
    check(
        "\"Hello, Worl\\x{64}!\" \n'\\x{64}'\n\"Hello, Worl\\x{b5}!\" \n'\\x{b5}'\n\"\\t\"\n'\\t'\n\"éç\"\n\"\\q\" \n",
        "src0:1:1..1:21 StrLiteral(\"Hello, World!\")\nsrc0:2:1..2:9 CharLiteral(100)\nsrc0:3:1..3:21 StrLiteral(\"Hello, Worlµ!\")\nsrc0:4:1..4:9 CharLiteral(181)\nsrc0:5:1..5:5 StrLiteral(\"\\t\")\nsrc0:6:1..6:5 CharLiteral(9)\nsrc0:7:1..7:7 StrLiteral(\"éç\")\nsrc0:8:2..8:4 Error {\n\tmessage: unknown escape: '\\q' is not a recognized escape sequence\n\tnote: valid escapes: '\\n', '\\t', '\\r', '\\\\', '\\'', '\\\"', '\\0', '\\x{..}'\n\tsrc0:8:2..8:4 \"this isn't a recognized escape sequence\"\n}\n",
    );
}

#[test]
fn ex1() {
    check(
        "use io\n\nmain(args: int[][]) {\n  print(\"Hello, Worl\\x{64}!\\n\")\n  c3po: int = 'x' + 47;\n  r2d2: int = c3po \n}\n",
        "src0:1:1..1:4 KeywordUse\nsrc0:1:5..1:7 Identifier(\"io\")\nsrc0:3:1..3:5 Identifier(\"main\")\nsrc0:3:5..3:6 LParen\nsrc0:3:6..3:10 Identifier(\"args\")\nsrc0:3:10..3:11 OfType\nsrc0:3:12..3:15 KeywordInt\nsrc0:3:15..3:16 LBracket\nsrc0:3:16..3:17 RBracket\nsrc0:3:17..3:18 LBracket\nsrc0:3:18..3:19 RBracket\nsrc0:3:19..3:20 RParen\nsrc0:3:21..3:22 BlockOpen\nsrc0:4:3..4:8 Identifier(\"print\")\nsrc0:4:8..4:9 LParen\nsrc0:4:9..4:31 StrLiteral(\"Hello, World!\\n\")\nsrc0:4:31..4:32 RParen\nsrc0:5:3..5:7 Identifier(\"c3po\")\nsrc0:5:7..5:8 OfType\nsrc0:5:9..5:12 KeywordInt\nsrc0:5:13..5:14 Assign\nsrc0:5:15..5:18 CharLiteral(120)\nsrc0:5:19..5:20 OperatorAdd\nsrc0:5:21..5:23 Integer(47)\nsrc0:5:23..5:24 SemiColon\nsrc0:6:3..6:7 Identifier(\"r2d2\")\nsrc0:6:7..6:8 OfType\nsrc0:6:9..6:12 KeywordInt\nsrc0:6:13..6:14 Assign\nsrc0:6:15..6:19 Identifier(\"c3po\")\nsrc0:7:1..7:2 BlockClose\n",
    );
}

#[test]
fn ex2() {
    check(
        "x:bool = 4all\nx = ''\nthis = does not matter\n",
        "src0:1:1..1:2 Identifier(\"x\")\nsrc0:1:2..1:3 OfType\nsrc0:1:3..1:7 KeywordBool\nsrc0:1:8..1:9 Assign\nsrc0:1:10..1:11 Integer(4)\nsrc0:1:11..1:14 Identifier(\"all\")\nsrc0:2:1..2:2 Identifier(\"x\")\nsrc0:2:3..2:4 Assign\nsrc0:2:5..2:7 Error {\n\tmessage: empty character literal\n\tnote: a char literal must contain exactly one character\n\tsrc0:2:5..2:7 \"empty here\"\n}\n",
    );
}

#[test]
fn gcd() {
    check(
        "gcd(a:int, b:int):int {\n  while (a != 0) {\n    if (a<b) b = b - a\n    else a = a - b\n  }\n  return(b)\n}\n",
        "src0:1:1..1:4 Identifier(\"gcd\")\nsrc0:1:4..1:5 LParen\nsrc0:1:5..1:6 Identifier(\"a\")\nsrc0:1:6..1:7 OfType\nsrc0:1:7..1:10 KeywordInt\nsrc0:1:10..1:11 Comma\nsrc0:1:12..1:13 Identifier(\"b\")\nsrc0:1:13..1:14 OfType\nsrc0:1:14..1:17 KeywordInt\nsrc0:1:17..1:18 RParen\nsrc0:1:18..1:19 OfType\nsrc0:1:19..1:22 KeywordInt\nsrc0:1:23..1:24 BlockOpen\nsrc0:2:3..2:8 KeywordWhile\nsrc0:2:9..2:10 LParen\nsrc0:2:10..2:11 Identifier(\"a\")\nsrc0:2:12..2:14 RelOpNeq\nsrc0:2:15..2:16 Integer(0)\nsrc0:2:16..2:17 RParen\nsrc0:2:18..2:19 BlockOpen\nsrc0:3:5..3:7 KeywordIf\nsrc0:3:8..3:9 LParen\nsrc0:3:9..3:10 Identifier(\"a\")\nsrc0:3:10..3:11 RelOpLt\nsrc0:3:11..3:12 Identifier(\"b\")\nsrc0:3:12..3:13 RParen\nsrc0:3:14..3:15 Identifier(\"b\")\nsrc0:3:16..3:17 Assign\nsrc0:3:18..3:19 Identifier(\"b\")\nsrc0:3:20..3:21 Minus\nsrc0:3:22..3:23 Identifier(\"a\")\nsrc0:4:5..4:9 KeywordElse\nsrc0:4:10..4:11 Identifier(\"a\")\nsrc0:4:12..4:13 Assign\nsrc0:4:14..4:15 Identifier(\"a\")\nsrc0:4:16..4:17 Minus\nsrc0:4:18..4:19 Identifier(\"b\")\nsrc0:5:3..5:4 BlockClose\nsrc0:6:3..6:9 KeywordReturn\nsrc0:6:9..6:10 LParen\nsrc0:6:10..6:11 Identifier(\"b\")\nsrc0:6:11..6:12 RParen\nsrc0:7:1..7:2 BlockClose\n",
    );
}

#[test]
fn high_mul_operator() {
    check(
        "a *>> b\n",
        "src0:1:1..1:2 Identifier(\"a\")\nsrc0:1:3..1:6 OperatorHighMul\nsrc0:1:7..1:8 Identifier(\"b\")\n",
    );
}

#[test]
fn identifier_with_primes() {
    check(
        "x'\na'b\nx'_1\nq'r's\n",
        "src0:1:1..1:3 Identifier(\"x'\")\nsrc0:2:1..2:4 Identifier(\"a'b\")\nsrc0:3:1..3:5 Identifier(\"x'_1\")\nsrc0:4:1..4:6 Identifier(\"q'r's\")\n",
    );
}

#[test]
fn insertionsort() {
    check(
        "sort(a: int[]) {\n  i:int = 0\n  n:int = length(a)\n  while (i < n) {\n      j:int = i\n      while (j > 0) {\n        if (a[j-1] > a[j]) {\n            swap:int = a[j]\n            a[j] = a[j-1]\n            a[j-1] = swap\n        }\n        j = j-1\n      }\n      i = i+1\n  }\n}\n",
        "src0:1:1..1:5 Identifier(\"sort\")\nsrc0:1:5..1:6 LParen\nsrc0:1:6..1:7 Identifier(\"a\")\nsrc0:1:7..1:8 OfType\nsrc0:1:9..1:12 KeywordInt\nsrc0:1:12..1:13 LBracket\nsrc0:1:13..1:14 RBracket\nsrc0:1:14..1:15 RParen\nsrc0:1:16..1:17 BlockOpen\nsrc0:2:3..2:4 Identifier(\"i\")\nsrc0:2:4..2:5 OfType\nsrc0:2:5..2:8 KeywordInt\nsrc0:2:9..2:10 Assign\nsrc0:2:11..2:12 Integer(0)\nsrc0:3:3..3:4 Identifier(\"n\")\nsrc0:3:4..3:5 OfType\nsrc0:3:5..3:8 KeywordInt\nsrc0:3:9..3:10 Assign\nsrc0:3:11..3:17 KeywordLength\nsrc0:3:17..3:18 LParen\nsrc0:3:18..3:19 Identifier(\"a\")\nsrc0:3:19..3:20 RParen\nsrc0:4:3..4:8 KeywordWhile\nsrc0:4:9..4:10 LParen\nsrc0:4:10..4:11 Identifier(\"i\")\nsrc0:4:12..4:13 RelOpLt\nsrc0:4:14..4:15 Identifier(\"n\")\nsrc0:4:15..4:16 RParen\nsrc0:4:17..4:18 BlockOpen\nsrc0:5:7..5:8 Identifier(\"j\")\nsrc0:5:8..5:9 OfType\nsrc0:5:9..5:12 KeywordInt\nsrc0:5:13..5:14 Assign\nsrc0:5:15..5:16 Identifier(\"i\")\nsrc0:6:7..6:12 KeywordWhile\nsrc0:6:13..6:14 LParen\nsrc0:6:14..6:15 Identifier(\"j\")\nsrc0:6:16..6:17 RelOpGr\nsrc0:6:18..6:19 Integer(0)\nsrc0:6:19..6:20 RParen\nsrc0:6:21..6:22 BlockOpen\nsrc0:7:9..7:11 KeywordIf\nsrc0:7:12..7:13 LParen\nsrc0:7:13..7:14 Identifier(\"a\")\nsrc0:7:14..7:15 LBracket\nsrc0:7:15..7:16 Identifier(\"j\")\nsrc0:7:16..7:18 Integer(-1)\nsrc0:7:18..7:19 RBracket\nsrc0:7:20..7:21 RelOpGr\nsrc0:7:22..7:23 Identifier(\"a\")\nsrc0:7:23..7:24 LBracket\nsrc0:7:24..7:25 Identifier(\"j\")\nsrc0:7:25..7:26 RBracket\nsrc0:7:26..7:27 RParen\nsrc0:7:28..7:29 BlockOpen\nsrc0:8:13..8:17 Identifier(\"swap\")\nsrc0:8:17..8:18 OfType\nsrc0:8:18..8:21 KeywordInt\nsrc0:8:22..8:23 Assign\nsrc0:8:24..8:25 Identifier(\"a\")\nsrc0:8:25..8:26 LBracket\nsrc0:8:26..8:27 Identifier(\"j\")\nsrc0:8:27..8:28 RBracket\nsrc0:9:13..9:14 Identifier(\"a\")\nsrc0:9:14..9:15 LBracket\nsrc0:9:15..9:16 Identifier(\"j\")\nsrc0:9:16..9:17 RBracket\nsrc0:9:18..9:19 Assign\nsrc0:9:20..9:21 Identifier(\"a\")\nsrc0:9:21..9:22 LBracket\nsrc0:9:22..9:23 Identifier(\"j\")\nsrc0:9:23..9:25 Integer(-1)\nsrc0:9:25..9:26 RBracket\nsrc0:10:13..10:14 Identifier(\"a\")\nsrc0:10:14..10:15 LBracket\nsrc0:10:15..10:16 Identifier(\"j\")\nsrc0:10:16..10:18 Integer(-1)\nsrc0:10:18..10:19 RBracket\nsrc0:10:20..10:21 Assign\nsrc0:10:22..10:26 Identifier(\"swap\")\nsrc0:11:9..11:10 BlockClose\nsrc0:12:9..12:10 Identifier(\"j\")\nsrc0:12:11..12:12 Assign\nsrc0:12:13..12:14 Identifier(\"j\")\nsrc0:12:14..12:16 Integer(-1)\nsrc0:13:7..13:8 BlockClose\nsrc0:14:7..14:8 Identifier(\"i\")\nsrc0:14:9..14:10 Assign\nsrc0:14:11..14:12 Identifier(\"i\")\nsrc0:14:12..14:13 OperatorAdd\nsrc0:14:13..14:14 Integer(1)\nsrc0:15:3..15:4 BlockClose\nsrc0:16:1..16:2 BlockClose\n",
    );
}

#[test]
fn interface() {
    check(
        "\nadd(a: int, b: int): int\nmatrix(m: int[][]): int[][]\nnoreturn(a: int)\nnoargs(): int\n",
        "src0:2:1..2:4 Identifier(\"add\")\nsrc0:2:4..2:5 LParen\nsrc0:2:5..2:6 Identifier(\"a\")\nsrc0:2:6..2:7 OfType\nsrc0:2:8..2:11 KeywordInt\nsrc0:2:11..2:12 Comma\nsrc0:2:13..2:14 Identifier(\"b\")\nsrc0:2:14..2:15 OfType\nsrc0:2:16..2:19 KeywordInt\nsrc0:2:19..2:20 RParen\nsrc0:2:20..2:21 OfType\nsrc0:2:22..2:25 KeywordInt\nsrc0:3:1..3:7 Identifier(\"matrix\")\nsrc0:3:7..3:8 LParen\nsrc0:3:8..3:9 Identifier(\"m\")\nsrc0:3:9..3:10 OfType\nsrc0:3:11..3:14 KeywordInt\nsrc0:3:14..3:15 LBracket\nsrc0:3:15..3:16 RBracket\nsrc0:3:16..3:17 LBracket\nsrc0:3:17..3:18 RBracket\nsrc0:3:18..3:19 RParen\nsrc0:3:19..3:20 OfType\nsrc0:3:21..3:24 KeywordInt\nsrc0:3:24..3:25 LBracket\nsrc0:3:25..3:26 RBracket\nsrc0:3:26..3:27 LBracket\nsrc0:3:27..3:28 RBracket\nsrc0:4:1..4:9 Identifier(\"noreturn\")\nsrc0:4:9..4:10 LParen\nsrc0:4:10..4:11 Identifier(\"a\")\nsrc0:4:11..4:12 OfType\nsrc0:4:13..4:16 KeywordInt\nsrc0:4:16..4:17 RParen\nsrc0:5:1..5:7 Identifier(\"noargs\")\nsrc0:5:7..5:8 LParen\nsrc0:5:8..5:9 RParen\nsrc0:5:9..5:10 OfType\nsrc0:5:11..5:14 KeywordInt\n",
    );
}

#[test]
fn int_overflow() {
    check(
        "12393498732984798273498\n",
        "src0:1:1..1:24 Error {\n\tmessage: illegal integer literal: number too large to fit in target type\n\tnote: eta only supports ints in the range [-2^63, 2^63)\n\tsrc0:1:1..1:24 \"this number is too large\"\n}\n",
    );
}

#[test]
fn keyword_prefix_identifiers() {
    check(
        "integer: int = 0\nboolean: bool = true\nuses: int = 1\niff: int = 2\nwhileLoop: int = 3\nreturning: int = 4\nlengths: int = 5\n",
        "src0:1:1..1:8 Identifier(\"integer\")\nsrc0:1:8..1:9 OfType\nsrc0:1:10..1:13 KeywordInt\nsrc0:1:14..1:15 Assign\nsrc0:1:16..1:17 Integer(0)\nsrc0:2:1..2:8 Identifier(\"boolean\")\nsrc0:2:8..2:9 OfType\nsrc0:2:10..2:14 KeywordBool\nsrc0:2:15..2:16 Assign\nsrc0:2:17..2:21 BoolLiteral(true)\nsrc0:3:1..3:5 Identifier(\"uses\")\nsrc0:3:5..3:6 OfType\nsrc0:3:7..3:10 KeywordInt\nsrc0:3:11..3:12 Assign\nsrc0:3:13..3:14 Integer(1)\nsrc0:4:1..4:4 Identifier(\"iff\")\nsrc0:4:4..4:5 OfType\nsrc0:4:6..4:9 KeywordInt\nsrc0:4:10..4:11 Assign\nsrc0:4:12..4:13 Integer(2)\nsrc0:5:1..5:10 Identifier(\"whileLoop\")\nsrc0:5:10..5:11 OfType\nsrc0:5:12..5:15 KeywordInt\nsrc0:5:16..5:17 Assign\nsrc0:5:18..5:19 Integer(3)\nsrc0:6:1..6:10 Identifier(\"returning\")\nsrc0:6:10..6:11 OfType\nsrc0:6:12..6:15 KeywordInt\nsrc0:6:16..6:17 Assign\nsrc0:6:18..6:19 Integer(4)\nsrc0:7:1..7:8 Identifier(\"lengths\")\nsrc0:7:8..7:9 OfType\nsrc0:7:10..7:13 KeywordInt\nsrc0:7:14..7:15 Assign\nsrc0:7:16..7:17 Integer(5)\n",
    );
}

#[test]
fn large_int() {
    check(
        "1000000000000000000000000000000\n",
        "src0:1:1..1:32 Error {\n\tmessage: illegal integer literal: number too large to fit in target type\n\tnote: eta only supports ints in the range [-2^63, 2^63)\n\tsrc0:1:1..1:32 \"this number is too large\"\n}\n",
    );
}

#[test]
fn leading_zeros() {
    check(
        "00\n01\n",
        "src0:1:1..1:2 Integer(0)\nsrc0:1:2..1:3 Integer(0)\nsrc0:2:1..2:2 Integer(0)\nsrc0:2:2..2:3 Integer(1)\n",
    );
}

#[test]
fn max_int_boundary() {
    check(
        "9223372036854775807\n9223372036854775808\n",
        "src0:1:1..1:20 Integer(9223372036854775807)\nsrc0:2:1..2:20 Error {\n\tmessage: illegal integer literal: number too large to fit in target type\n\tnote: eta only supports ints in the range [-2^63, 2^63)\n\tsrc0:2:1..2:20 \"this number is too large\"\n}\n",
    );
}

#[test]
fn max_valid_codepoint() {
    check(
        "'\\x{10FFFF}'\n",
        "src0:1:1..1:13 CharLiteral(1114111)\n",
    );
}

#[test]
fn mdarrays() {
    check(
        "a: int[][]\nb: int[3][4]\na = b\nc: int[3][]\nc[0] = b[0]; c[1] = b[1]; c[2] = b[2]\nd: int[][] = {{1, 0}, {0, 1}}\n",
        "src0:1:1..1:2 Identifier(\"a\")\nsrc0:1:2..1:3 OfType\nsrc0:1:4..1:7 KeywordInt\nsrc0:1:7..1:8 LBracket\nsrc0:1:8..1:9 RBracket\nsrc0:1:9..1:10 LBracket\nsrc0:1:10..1:11 RBracket\nsrc0:2:1..2:2 Identifier(\"b\")\nsrc0:2:2..2:3 OfType\nsrc0:2:4..2:7 KeywordInt\nsrc0:2:7..2:8 LBracket\nsrc0:2:8..2:9 Integer(3)\nsrc0:2:9..2:10 RBracket\nsrc0:2:10..2:11 LBracket\nsrc0:2:11..2:12 Integer(4)\nsrc0:2:12..2:13 RBracket\nsrc0:3:1..3:2 Identifier(\"a\")\nsrc0:3:3..3:4 Assign\nsrc0:3:5..3:6 Identifier(\"b\")\nsrc0:4:1..4:2 Identifier(\"c\")\nsrc0:4:2..4:3 OfType\nsrc0:4:4..4:7 KeywordInt\nsrc0:4:7..4:8 LBracket\nsrc0:4:8..4:9 Integer(3)\nsrc0:4:9..4:10 RBracket\nsrc0:4:10..4:11 LBracket\nsrc0:4:11..4:12 RBracket\nsrc0:5:1..5:2 Identifier(\"c\")\nsrc0:5:2..5:3 LBracket\nsrc0:5:3..5:4 Integer(0)\nsrc0:5:4..5:5 RBracket\nsrc0:5:6..5:7 Assign\nsrc0:5:8..5:9 Identifier(\"b\")\nsrc0:5:9..5:10 LBracket\nsrc0:5:10..5:11 Integer(0)\nsrc0:5:11..5:12 RBracket\nsrc0:5:12..5:13 SemiColon\nsrc0:5:14..5:15 Identifier(\"c\")\nsrc0:5:15..5:16 LBracket\nsrc0:5:16..5:17 Integer(1)\nsrc0:5:17..5:18 RBracket\nsrc0:5:19..5:20 Assign\nsrc0:5:21..5:22 Identifier(\"b\")\nsrc0:5:22..5:23 LBracket\nsrc0:5:23..5:24 Integer(1)\nsrc0:5:24..5:25 RBracket\nsrc0:5:25..5:26 SemiColon\nsrc0:5:27..5:28 Identifier(\"c\")\nsrc0:5:28..5:29 LBracket\nsrc0:5:29..5:30 Integer(2)\nsrc0:5:30..5:31 RBracket\nsrc0:5:32..5:33 Assign\nsrc0:5:34..5:35 Identifier(\"b\")\nsrc0:5:35..5:36 LBracket\nsrc0:5:36..5:37 Integer(2)\nsrc0:5:37..5:38 RBracket\nsrc0:6:1..6:2 Identifier(\"d\")\nsrc0:6:2..6:3 OfType\nsrc0:6:4..6:7 KeywordInt\nsrc0:6:7..6:8 LBracket\nsrc0:6:8..6:9 RBracket\nsrc0:6:9..6:10 LBracket\nsrc0:6:10..6:11 RBracket\nsrc0:6:12..6:13 Assign\nsrc0:6:14..6:15 BlockOpen\nsrc0:6:15..6:16 BlockOpen\nsrc0:6:16..6:17 Integer(1)\nsrc0:6:17..6:18 Comma\nsrc0:6:19..6:20 Integer(0)\nsrc0:6:20..6:21 BlockClose\nsrc0:6:21..6:22 Comma\nsrc0:6:23..6:24 BlockOpen\nsrc0:6:24..6:25 Integer(0)\nsrc0:6:25..6:26 Comma\nsrc0:6:27..6:28 Integer(1)\nsrc0:6:28..6:29 BlockClose\nsrc0:6:29..6:30 BlockClose\n",
    );
}

#[test]
fn modulo_operator() {
    check(
        "a % b\n",
        "src0:1:1..1:2 Identifier(\"a\")\nsrc0:1:3..1:4 OperatorMod\nsrc0:1:5..1:6 Identifier(\"b\")\n",
    );
}

#[test]
fn multiline_string() {
    check(
        "\"Hello\nWorld\"\n",
        "src0:1:1..2:7 StrLiteral(\"Hello\\nWorld\")\n",
    );
}

#[test]
fn ratadd() {
    check(
        "ratadd(p1:int, q1:int, p2:int, q2:int) : (int, int) {\n    g:int = gcd(q1,q2)\n    p3:int = p1*(q2/g) + p2*(q1/g)\n    return (p3, q1/g*q2)\n}\n",
        "src0:1:1..1:7 Identifier(\"ratadd\")\nsrc0:1:7..1:8 LParen\nsrc0:1:8..1:10 Identifier(\"p1\")\nsrc0:1:10..1:11 OfType\nsrc0:1:11..1:14 KeywordInt\nsrc0:1:14..1:15 Comma\nsrc0:1:16..1:18 Identifier(\"q1\")\nsrc0:1:18..1:19 OfType\nsrc0:1:19..1:22 KeywordInt\nsrc0:1:22..1:23 Comma\nsrc0:1:24..1:26 Identifier(\"p2\")\nsrc0:1:26..1:27 OfType\nsrc0:1:27..1:30 KeywordInt\nsrc0:1:30..1:31 Comma\nsrc0:1:32..1:34 Identifier(\"q2\")\nsrc0:1:34..1:35 OfType\nsrc0:1:35..1:38 KeywordInt\nsrc0:1:38..1:39 RParen\nsrc0:1:40..1:41 OfType\nsrc0:1:42..1:43 LParen\nsrc0:1:43..1:46 KeywordInt\nsrc0:1:46..1:47 Comma\nsrc0:1:48..1:51 KeywordInt\nsrc0:1:51..1:52 RParen\nsrc0:1:53..1:54 BlockOpen\nsrc0:2:5..2:6 Identifier(\"g\")\nsrc0:2:6..2:7 OfType\nsrc0:2:7..2:10 KeywordInt\nsrc0:2:11..2:12 Assign\nsrc0:2:13..2:16 Identifier(\"gcd\")\nsrc0:2:16..2:17 LParen\nsrc0:2:17..2:19 Identifier(\"q1\")\nsrc0:2:19..2:20 Comma\nsrc0:2:20..2:22 Identifier(\"q2\")\nsrc0:2:22..2:23 RParen\nsrc0:3:5..3:7 Identifier(\"p3\")\nsrc0:3:7..3:8 OfType\nsrc0:3:8..3:11 KeywordInt\nsrc0:3:12..3:13 Assign\nsrc0:3:14..3:16 Identifier(\"p1\")\nsrc0:3:16..3:17 OperatorMul\nsrc0:3:17..3:18 LParen\nsrc0:3:18..3:20 Identifier(\"q2\")\nsrc0:3:20..3:21 OperatorDiv\nsrc0:3:21..3:22 Identifier(\"g\")\nsrc0:3:22..3:23 RParen\nsrc0:3:24..3:25 OperatorAdd\nsrc0:3:26..3:28 Identifier(\"p2\")\nsrc0:3:28..3:29 OperatorMul\nsrc0:3:29..3:30 LParen\nsrc0:3:30..3:32 Identifier(\"q1\")\nsrc0:3:32..3:33 OperatorDiv\nsrc0:3:33..3:34 Identifier(\"g\")\nsrc0:3:34..3:35 RParen\nsrc0:4:5..4:11 KeywordReturn\nsrc0:4:12..4:13 LParen\nsrc0:4:13..4:15 Identifier(\"p3\")\nsrc0:4:15..4:16 Comma\nsrc0:4:17..4:19 Identifier(\"q1\")\nsrc0:4:19..4:20 OperatorDiv\nsrc0:4:20..4:21 Identifier(\"g\")\nsrc0:4:21..4:22 OperatorMul\nsrc0:4:22..4:24 Identifier(\"q2\")\nsrc0:4:24..4:25 RParen\nsrc0:5:1..5:2 BlockClose\n",
    );
}

#[test]
fn lex_pa1_ratadduse() {
    check(
        "(p:int, q:int) = ratadd(2, 5, 1, 3)\n(_, q':int) = ratadd(1, 2, 1, 3)\n",
        "src0:1:1..1:2 LParen\nsrc0:1:2..1:3 Identifier(\"p\")\nsrc0:1:3..1:4 OfType\nsrc0:1:4..1:7 KeywordInt\nsrc0:1:7..1:8 Comma\nsrc0:1:9..1:10 Identifier(\"q\")\nsrc0:1:10..1:11 OfType\nsrc0:1:11..1:14 KeywordInt\nsrc0:1:14..1:15 RParen\nsrc0:1:16..1:17 Assign\nsrc0:1:18..1:24 Identifier(\"ratadd\")\nsrc0:1:24..1:25 LParen\nsrc0:1:25..1:26 Integer(2)\nsrc0:1:26..1:27 Comma\nsrc0:1:28..1:29 Integer(5)\nsrc0:1:29..1:30 Comma\nsrc0:1:31..1:32 Integer(1)\nsrc0:1:32..1:33 Comma\nsrc0:1:34..1:35 Integer(3)\nsrc0:1:35..1:36 RParen\nsrc0:2:1..2:2 LParen\nsrc0:2:2..2:3 Discard\nsrc0:2:3..2:4 Comma\nsrc0:2:5..2:7 Identifier(\"q'\")\nsrc0:2:7..2:8 OfType\nsrc0:2:8..2:11 KeywordInt\nsrc0:2:11..2:12 RParen\nsrc0:2:13..2:14 Assign\nsrc0:2:15..2:21 Identifier(\"ratadd\")\nsrc0:2:21..2:22 LParen\nsrc0:2:22..2:23 Integer(1)\nsrc0:2:23..2:24 Comma\nsrc0:2:25..2:26 Integer(2)\nsrc0:2:26..2:27 Comma\nsrc0:2:28..2:29 Integer(1)\nsrc0:2:29..2:30 Comma\nsrc0:2:31..2:32 Integer(3)\nsrc0:2:32..2:33 RParen\n",
    );
}

#[test]
fn spec1() {
    check(
        "x:int = 2;\nz:int;\n(b: bool, i:int) = f(x}\ns: int[] = \"Hello\";\n",
        "src0:1:1..1:2 Identifier(\"x\")\nsrc0:1:2..1:3 OfType\nsrc0:1:3..1:6 KeywordInt\nsrc0:1:7..1:8 Assign\nsrc0:1:9..1:10 Integer(2)\nsrc0:1:10..1:11 SemiColon\nsrc0:2:1..2:2 Identifier(\"z\")\nsrc0:2:2..2:3 OfType\nsrc0:2:3..2:6 KeywordInt\nsrc0:2:6..2:7 SemiColon\nsrc0:3:1..3:2 LParen\nsrc0:3:2..3:3 Identifier(\"b\")\nsrc0:3:3..3:4 OfType\nsrc0:3:5..3:9 KeywordBool\nsrc0:3:9..3:10 Comma\nsrc0:3:11..3:12 Identifier(\"i\")\nsrc0:3:12..3:13 OfType\nsrc0:3:13..3:16 KeywordInt\nsrc0:3:16..3:17 RParen\nsrc0:3:18..3:19 Assign\nsrc0:3:20..3:21 Identifier(\"f\")\nsrc0:3:21..3:22 LParen\nsrc0:3:22..3:23 Identifier(\"x\")\nsrc0:3:23..3:24 BlockClose\nsrc0:4:1..4:2 Identifier(\"s\")\nsrc0:4:2..4:3 OfType\nsrc0:4:4..4:7 KeywordInt\nsrc0:4:7..4:8 LBracket\nsrc0:4:8..4:9 RBracket\nsrc0:4:10..4:11 Assign\nsrc0:4:12..4:19 StrLiteral(\"Hello\")\nsrc0:4:19..4:20 SemiColon\n",
    );
}

#[test]
fn spec2() {
    check(
        "x = x + 1\ns = {1, 2, 3}\nb = !b\n",
        "src0:1:1..1:2 Identifier(\"x\")\nsrc0:1:3..1:4 Assign\nsrc0:1:5..1:6 Identifier(\"x\")\nsrc0:1:7..1:8 OperatorAdd\nsrc0:1:9..1:10 Integer(1)\nsrc0:2:1..2:2 Identifier(\"s\")\nsrc0:2:3..2:4 Assign\nsrc0:2:5..2:6 BlockOpen\nsrc0:2:6..2:7 Integer(1)\nsrc0:2:7..2:8 Comma\nsrc0:2:9..2:10 Integer(2)\nsrc0:2:10..2:11 Comma\nsrc0:2:12..2:13 Integer(3)\nsrc0:2:13..2:14 BlockClose\nsrc0:3:1..3:2 Identifier(\"b\")\nsrc0:3:3..3:4 Assign\nsrc0:3:5..3:6 OperatorNot\nsrc0:3:6..3:7 Identifier(\"b\")\n",
    );
}

#[test]
fn spec3() {
    check(
        "s: int[] = \"Hello\" + {13, 10}\n",
        "src0:1:1..1:2 Identifier(\"s\")\nsrc0:1:2..1:3 OfType\nsrc0:1:4..1:7 KeywordInt\nsrc0:1:7..1:8 LBracket\nsrc0:1:8..1:9 RBracket\nsrc0:1:10..1:11 Assign\nsrc0:1:12..1:19 StrLiteral(\"Hello\")\nsrc0:1:20..1:21 OperatorAdd\nsrc0:1:22..1:23 BlockOpen\nsrc0:1:23..1:25 Integer(13)\nsrc0:1:25..1:26 Comma\nsrc0:1:27..1:29 Integer(10)\nsrc0:1:29..1:30 BlockClose\n",
    );
}

#[test]
fn string_tab() {
    check(
        "\"\\t\"\n",
        "src0:1:1..1:5 StrLiteral(\"\\t\")\n",
    );
}

#[test]
fn supplementary_char() {
    check(
        "main(args: int[][]) {\n    a:int = '😀';\n    b:int = '🅰';\n    c:int[] = \"Hello 😀 World\";\n}\n",
        "src0:1:1..1:5 Identifier(\"main\")\nsrc0:1:5..1:6 LParen\nsrc0:1:6..1:10 Identifier(\"args\")\nsrc0:1:10..1:11 OfType\nsrc0:1:12..1:15 KeywordInt\nsrc0:1:15..1:16 LBracket\nsrc0:1:16..1:17 RBracket\nsrc0:1:17..1:18 LBracket\nsrc0:1:18..1:19 RBracket\nsrc0:1:19..1:20 RParen\nsrc0:1:21..1:22 BlockOpen\nsrc0:2:5..2:6 Identifier(\"a\")\nsrc0:2:6..2:7 OfType\nsrc0:2:7..2:10 KeywordInt\nsrc0:2:11..2:12 Assign\nsrc0:2:13..2:19 CharLiteral(128512)\nsrc0:2:19..2:20 SemiColon\nsrc0:3:5..3:6 Identifier(\"b\")\nsrc0:3:6..3:7 OfType\nsrc0:3:7..3:10 KeywordInt\nsrc0:3:11..3:12 Assign\nsrc0:3:13..3:19 CharLiteral(127344)\nsrc0:3:19..3:20 SemiColon\nsrc0:4:5..4:6 Identifier(\"c\")\nsrc0:4:6..4:7 OfType\nsrc0:4:7..4:10 KeywordInt\nsrc0:4:10..4:11 LBracket\nsrc0:4:11..4:12 RBracket\nsrc0:4:13..4:14 Assign\nsrc0:4:15..4:33 StrLiteral(\"Hello 😀 World\")\nsrc0:4:33..4:34 SemiColon\nsrc0:5:1..5:2 BlockClose\n",
    );
}

#[test]
fn supplementary_outofbounds() {
    check(
        "main(args: int[][]) {\n    ok: int[] = \"\\x{110000}\"; \n}\n",
        "src0:1:1..1:5 Identifier(\"main\")\nsrc0:1:5..1:6 LParen\nsrc0:1:6..1:10 Identifier(\"args\")\nsrc0:1:10..1:11 OfType\nsrc0:1:12..1:15 KeywordInt\nsrc0:1:15..1:16 LBracket\nsrc0:1:16..1:17 RBracket\nsrc0:1:17..1:18 LBracket\nsrc0:1:18..1:19 RBracket\nsrc0:1:19..1:20 RParen\nsrc0:1:21..1:22 BlockOpen\nsrc0:2:5..2:7 Identifier(\"ok\")\nsrc0:2:7..2:8 OfType\nsrc0:2:9..2:12 KeywordInt\nsrc0:2:12..2:13 LBracket\nsrc0:2:13..2:14 RBracket\nsrc0:2:15..2:16 Assign\nsrc0:2:21..2:27 Error {\n\tmessage: unicode escape out of range\n\tnote: the maximum valid codepoint is U+10FFFF ('\\x{10FFFF}')\n\tsrc0:2:21..2:27 \"this isn't a valid codepoint\"\n}\n",
    );
}

#[test]
fn surrogate_char() {
    check(
        "'\\x{D800}'\n",
        "src0:1:2..1:10 Error {\n\tmessage: invalid unicode escape\n\tnote: U+D800 is a UTF-16 surrogate half and is not a valid Unicode scalar value; surrogate halves (U+D800–U+DFFF) cannot be used in escape sequences\n\tsrc0:1:2..1:10 \"this escape produces a surrogate half\"\n}\n",
    );
}

#[test]
fn surrogate_string() {
    check(
        "\"\\x{D800}\"\n",
        "src0:1:2..1:10 Error {\n\tmessage: invalid unicode escape\n\tnote: U+D800 is a UTF-16 surrogate half and is not a valid Unicode scalar value; surrogate halves (U+D800–U+DFFF) cannot be used in escape sequences\n\tsrc0:1:2..1:10 \"this escape produces a surrogate half\"\n}\n",
    );
}

#[test]
fn unclosedescape() {
    check(
        "\"Hello, Worl\\x{64\"\n",
        "src0:1:13..1:18 Error {\n\tmessage: unterminated unicode escape\n\tnote: expected a closing '}' before the end of the literal\n\tsrc0:1:13..1:18 \"unicode escape unclosed here\"\n}\n",
    );
}

#[test]
fn unicode_bmp_char() {
    check(
        "'é'\n",
        "src0:1:1..1:5 CharLiteral(233)\n",
    );
}
