//! The Eta lexer.
//!
//! Splits source bytes into [`Token`]s with their byte spans. Whitespace
//! (`' '`, `\t`, `\n`, `\f`, `\r`) and `//` line comments are skipped. At each
//! position the longest token wins and keywords win over identifiers of the
//! same spelling; so a `-` directly followed by a digit starts a negative
//! integer literal (`j-1` is `j`, `-1`), while `- 1` is a minus and a `1`. A
//! byte that starts no token, an unterminated literal, an integer literal
//! outside `[-2^63, 2^63)` and every malformed escape inside a character or
//! string literal produce a diagnostic; lexing then resumes after the
//! offending input.

use vstd::prelude::*;
use vstd::string::StringSliceAdditionalSpecFns;
use crate::diagnostic::{Diagnostic, Level};
use crate::span::Span;
use crate::token::{Token, TokenView, spelling, is_scalar, code_points, ascii_chars, char_of, code_point};
use crate::text::{digits, decimal, signed_decimal, digit_char, chars_to_string, string_push, push_digits, char_from_u32};

verus! {

// ---------------------------------------------------------------------------
// Byte classes

pub open spec fn is_ws(b: u8) -> bool {
    b == 32 || b == 9 || b == 10 || b == 12 || b == 13
}

pub open spec fn is_alpha(b: u8) -> bool {
    (65 <= b <= 90) || (97 <= b <= 122)
}

pub open spec fn is_digit(b: u8) -> bool {
    48 <= b <= 57
}

pub open spec fn is_ident_continue(b: u8) -> bool {
    is_alpha(b) || is_digit(b) || b == 95 || b == 39
}

pub open spec fn is_hex_digit(b: u8) -> bool {
    is_digit(b) || (65 <= b <= 70) || (97 <= b <= 102)
}

pub open spec fn hex_digit_value(b: u8) -> nat {
    if is_digit(b) { (b - 48) as nat } else if 65 <= b <= 70 { (b - 55) as nat } else { (b - 87) as nat }
}

/// Number of bytes of the UTF-8 sequence that starts with `b` (1 for
/// bytes that cannot start a sequence).
pub open spec fn char_width(b: u8) -> int {
    if b < 0x80 { 1 } else if b >= 0xF0 { 4 } else if b >= 0xE0 { 3 } else if b >= 0xC0 { 2 } else { 1 }
}

/// Code point encoded by the `w` bytes of `s` starting at `k`.
pub open spec fn utf8_value(s: Seq<u8>, k: int, w: int) -> u32 {
    if w == 1 {
        s[k] as u32
    } else if w == 2 {
        (((s[k] & 0x1F) as u32) << 6u32) | ((s[k + 1] & 0x3F) as u32)
    } else if w == 3 {
        (((s[k] & 0x0F) as u32) << 12u32) | (((s[k + 1] & 0x3F) as u32) << 6u32) | ((s[k + 2] & 0x3F) as u32)
    } else {
        (((s[k] & 0x07) as u32) << 18u32) | (((s[k + 1] & 0x3F) as u32) << 12u32)
            | (((s[k + 2] & 0x3F) as u32) << 6u32) | ((s[k + 3] & 0x3F) as u32)
    }
}

// ---------------------------------------------------------------------------
// Runs of bytes

/// Index of the first `\n` at or after `i`, or the end of `s`.
pub open spec fn line_end(s: Seq<u8>, i: int) -> int
    decreases s.len() - i,
{
    if i >= s.len() { s.len() as int } else if s[i] == 10 { i } else { line_end(s, i + 1) }
}

/// End of the run of identifier characters starting at `i`.
pub open spec fn ident_end(s: Seq<u8>, i: int) -> int
    decreases s.len() - i,
{
    if i >= s.len() { s.len() as int } else if is_ident_continue(s[i]) { ident_end(s, i + 1) } else { i }
}

/// End of the run of decimal digits starting at `i`.
pub open spec fn digits_end(s: Seq<u8>, i: int) -> int
    decreases s.len() - i,
{
    if i >= s.len() { s.len() as int } else if is_digit(s[i]) { digits_end(s, i + 1) } else { i }
}

/// End of the run of hexadecimal digits starting at `i`, not going past `b`.
pub open spec fn hex_end(s: Seq<u8>, i: int, b: int) -> int
    decreases b - i,
{
    if i >= b { i } else if is_hex_digit(s[i]) { hex_end(s, i + 1, b) } else { i }
}

/// Smallest integer that no Eta `int` literal may reach: `2^63`.
pub open spec fn int_limit() -> nat {
    0x8000_0000_0000_0000
}

/// Value of the decimal digits `s[a..e]`, or `2^63 + 1` when it is larger
/// than `2^63`.
pub open spec fn decimal_value(s: Seq<u8>, a: int, e: int) -> nat
    decreases e - a,
{
    if e <= a {
        0
    } else {
        let v = decimal_value(s, a, e - 1) * 10 + (s[e - 1] - 48) as nat;
        if v > int_limit() { int_limit() + 1 } else { v }
    }
}

/// First value beyond the Unicode range: `0x110000`.
pub open spec fn code_point_limit() -> nat {
    0x110000
}

/// Value of the hexadecimal digits `s[a..e]`, or `0x110000` when it is at
/// least that.
pub open spec fn hex_value(s: Seq<u8>, a: int, e: int) -> nat
    decreases e - a,
{
    if e <= a {
        0
    } else {
        let v = hex_value(s, a, e - 1) * 16 + hex_digit_value(s[e - 1]);
        if v > code_point_limit() { code_point_limit() } else { v }
    }
}

// ---------------------------------------------------------------------------
// Trivia

pub proof fn lemma_line_end_bounds(s: Seq<u8>, i: int)
    requires
        0 <= i <= s.len(),
    ensures
        i <= line_end(s, i) <= s.len(),
    decreases s.len() - i,
{
    if i < s.len() && s[i] != 10 {
        lemma_line_end_bounds(s, i + 1);
    }
}

/// Position of the first byte at or after `i` that is neither whitespace
/// nor inside a `//` comment.
pub open spec fn skip_trivia(s: Seq<u8>, i: int) -> int
    decreases s.len() - i,
{
    if i < 0 || i >= s.len() {
        i
    } else if is_ws(s[i]) {
        skip_trivia(s, i + 1)
    } else if s[i] == 47 && i + 1 < s.len() && s[i + 1] == 47 {
        proof { lemma_line_end_bounds(s, i + 2); }
        skip_trivia(s, line_end(s, i + 2))
    } else {
        i
    }
}

// ---------------------------------------------------------------------------
// Literals

pub proof fn lemma_hex_end_bounds(s: Seq<u8>, i: int, b: int)
    requires
        i <= b,
    ensures
        i <= hex_end(s, i, b) <= b,
    decreases b - i,
{
    if i < b && is_hex_digit(s[i]) {
        lemma_hex_end_bounds(s, i + 1, b);
    }
}

/// Decodes the element of a literal body `s[k..b]` that starts at `k`:
/// its code point and the position after it.
pub open spec fn body_step(s: Seq<u8>, k: int, b: int) -> Result<(u32, int), LexError> {
    if s[k] != 92 {
        let w = char_width(s[k]);
        if k + w > b {
            Err(LexError::InvalidUtf8 { lo: k, hi: b })
        } else if is_scalar(utf8_value(s, k, w)) {
            Ok((utf8_value(s, k, w), k + w))
        } else {
            Err(LexError::InvalidUtf8 { lo: k, hi: k + w })
        }
    } else if k + 1 >= b {
        Ok((92u32, b))
    } else {
        let e = s[k + 1];
        if e == 110 {
            Ok((10u32, k + 2))
        } else if e == 116 {
            Ok((9u32, k + 2))
        } else if e == 114 {
            Ok((13u32, k + 2))
        } else if e == 92 {
            Ok((92u32, k + 2))
        } else if e == 39 {
            Ok((39u32, k + 2))
        } else if e == 34 {
            Ok((34u32, k + 2))
        } else if e == 48 {
            Ok((0u32, k + 2))
        } else if e == 120 {
            if k + 2 < b && s[k + 2] == 123 {
                let h = hex_end(s, k + 3, b);
                if h < b && s[h] == 125 {
                    if h == k + 3 {
                        Err(LexError::EmptyHex { lo: k, hi: h })
                    } else {
                        let v = hex_value(s, k + 3, h);
                        if 0xD800 <= v <= 0xDFFF {
                            Err(LexError::Surrogate { lo: k, hi: h + 1, value: v })
                        } else if v > 0x10FFFF {
                            Err(LexError::OutOfRange { lo: k + 3, hi: h })
                        } else {
                            Ok((v as u32, h + 1))
                        }
                    }
                } else {
                    Err(LexError::UnclosedHex { lo: k, hi: h })
                }
            } else {
                Err(LexError::MissingBrace { lo: k, hi: k + 2 })
            }
        } else {
            let w = char_width(e);
            if k + 1 + w > b {
                Err(LexError::InvalidUtf8 { lo: k + 1, hi: b })
            } else if is_scalar(utf8_value(s, k + 1, w)) {
                Err(LexError::UnknownEscape { lo: k, hi: k + 1 + w, c: utf8_value(s, k + 1, w) })
            } else {
                Err(LexError::InvalidUtf8 { lo: k + 1, hi: k + 1 + w })
            }
        }
    }
}

pub proof fn lemma_body_step_advances(s: Seq<u8>, k: int, b: int)
    requires
        k < b,
    ensures
        body_step(s, k, b) matches Ok((v, k2)) ==> k < k2 <= b,
{
    if s[k] == 92 && k + 2 < b && s[k + 1] == 120 && s[k + 2] == 123 {
        lemma_hex_end_bounds(s, k + 3, b);
    }
}

/// Code points of the literal body `s[k..b]`, or the first error in it.
pub open spec fn decode_body(s: Seq<u8>, k: int, b: int) -> Result<Seq<u32>, LexError>
    decreases b - k,
{
    if k >= b {
        Ok(seq![])
    } else {
        proof { lemma_body_step_advances(s, k, b); }
        match body_step(s, k, b) {
            Err(e) => Err(e),
            Ok((v, k2)) => match decode_body(s, k2, b) {
                Ok(rest) => Ok(seq![v] + rest),
                Err(e) => Err(e),
            },
        }
    }
}

/// Finds the closing quote `q` of a literal whose body starts at `i`:
/// `(true, p)` when `s[p]` closes it, `(false, p)` when it cannot be
/// completed and `p` is the first byte that could not be matched.
pub open spec fn quote_scan(s: Seq<u8>, i: int, q: u8) -> (bool, int)
    decreases s.len() - i,
{
    if i < 0 || i >= s.len() {
        (false, s.len() as int)
    } else if s[i] == q {
        (true, i)
    } else if s[i] == 92 {
        if i + 1 >= s.len() {
            (false, s.len() as int)
        } else if s[i + 1] == 10 {
            (false, i + 1)
        } else {
            quote_scan(s, i + 2, q)
        }
    } else {
        quote_scan(s, i + 1, q)
    }
}

// ---------------------------------------------------------------------------
// Tokens

/// The token spelled by the identifier-shaped word `w`.
pub open spec fn word_token(w: Seq<u8>) -> TokenView {
    if w == spelling(TokenView::KeywordUse) { TokenView::KeywordUse }
    else if w == spelling(TokenView::KeywordLength) { TokenView::KeywordLength }
    else if w == spelling(TokenView::KeywordWhile) { TokenView::KeywordWhile }
    else if w == spelling(TokenView::KeywordIf) { TokenView::KeywordIf }
    else if w == spelling(TokenView::KeywordElse) { TokenView::KeywordElse }
    else if w == spelling(TokenView::KeywordReturn) { TokenView::KeywordReturn }
    else if w == spelling(TokenView::KeywordInt) { TokenView::KeywordInt }
    else if w == spelling(TokenView::KeywordBool) { TokenView::KeywordBool }
    else if w == seq![116u8, 114, 117, 101] { TokenView::BoolLiteral(true) }
    else if w == seq![102u8, 97, 108, 115, 101] { TokenView::BoolLiteral(false) }
    else { TokenView::Identifier(ascii_chars(w)) }
}

/// The token made of the single byte `c`, if there is one and no longer
/// token can start with `c`.
pub open spec fn single_byte_token(c: u8) -> Option<TokenView> {
    if c == 59 { Some(TokenView::SemiColon) }
    else if c == 95 { Some(TokenView::Discard) }
    else if c == 58 { Some(TokenView::OfType) }
    else if c == 44 { Some(TokenView::Comma) }
    else if c == 40 { Some(TokenView::LParen) }
    else if c == 41 { Some(TokenView::RParen) }
    else if c == 91 { Some(TokenView::LBracket) }
    else if c == 93 { Some(TokenView::RBracket) }
    else if c == 123 { Some(TokenView::BlockOpen) }
    else if c == 125 { Some(TokenView::BlockClose) }
    else if c == 47 { Some(TokenView::OperatorDiv) }
    else if c == 37 { Some(TokenView::OperatorMod) }
    else if c == 45 { Some(TokenView::Minus) }
    else if c == 43 { Some(TokenView::OperatorAdd) }
    else if c == 38 { Some(TokenView::Land) }
    else if c == 124 { Some(TokenView::Lor) }
    else { None }
}

/// One step of the lexer: a token with its local span, or an error and the
/// position where lexing resumes.
pub enum LexStep {
    Token { lo: int, tok: TokenView, hi: int },
    Error { err: LexError, resume: int },
}

impl LexStep {
    pub open spec fn resume(self) -> int {
        match self {
            LexStep::Token { hi, .. } => hi,
            LexStep::Error { resume, .. } => resume,
        }
    }
}

/// The byte at `i`, or 0 past the end.
pub open spec fn byte_at(s: Seq<u8>, i: int) -> u8 {
    if 0 <= i < s.len() { s[i] } else { 0 }
}

/// Lexes a character or string literal opened by the quote at `j`.
pub open spec fn scan_literal(s: Seq<u8>, j: int) -> LexStep {
    let q = s[j];
    let (closed, p) = quote_scan(s, j + 1, q);
    if !closed {
        LexStep::Error { err: LexError::UnknownToken { lo: j, hi: p }, resume: p }
    } else {
        let end = p + 1;
        match decode_body(s, j + 1, p) {
            Err(e) => LexStep::Error { err: e, resume: end },
            Ok(vals) => if q == 34 {
                LexStep::Token { lo: j, tok: TokenView::StrLiteral(vals), hi: end }
            } else if vals.len() == 0 {
                LexStep::Error { err: LexError::EmptyChar { lo: j, hi: end }, resume: end }
            } else if vals.len() > 1 {
                LexStep::Error { err: LexError::MultiChar { lo: j, hi: end }, resume: end }
            } else {
                LexStep::Token { lo: j, tok: TokenView::CharLiteral(vals[0]), hi: end }
            },
        }
    }
}

/// Lexes the token that starts at `j` (which is not trivia).
pub open spec fn scan_at(s: Seq<u8>, j: int) -> LexStep {
    let c = s[j];
    if is_alpha(c) {
        let e = ident_end(s, j + 1);
        LexStep::Token { lo: j, tok: word_token(s.subrange(j, e)), hi: e }
    } else if c == 48 {
        LexStep::Token { lo: j, tok: TokenView::Integer(0), hi: j + 1 }
    } else if is_digit(c) {
        let e = digits_end(s, j + 1);
        let v = decimal_value(s, j, e);
        if v < int_limit() {
            LexStep::Token { lo: j, tok: TokenView::Integer(v as i64), hi: e }
        } else {
            LexStep::Error { err: LexError::IntTooLarge { lo: j, hi: e }, resume: e }
        }
    } else if c == 45 && is_digit(byte_at(s, j + 1)) {
        if s[j + 1] == 48 {
            LexStep::Token { lo: j, tok: TokenView::Integer(0), hi: j + 2 }
        } else {
            let e = digits_end(s, j + 2);
            let v = decimal_value(s, j + 1, e);
            if v <= int_limit() {
                LexStep::Token { lo: j, tok: TokenView::Integer((0 - v) as i64), hi: e }
            } else {
                LexStep::Error { err: LexError::IntTooLarge { lo: j, hi: e }, resume: e }
            }
        }
    } else if c == 39 || c == 34 {
        scan_literal(s, j)
    } else if c == 42 {
        if byte_at(s, j + 1) == 62 && byte_at(s, j + 2) == 62 {
            LexStep::Token { lo: j, tok: TokenView::OperatorHighMul, hi: j + 3 }
        } else {
            LexStep::Token { lo: j, tok: TokenView::OperatorMul, hi: j + 1 }
        }
    } else if c == 61 || c == 33 || c == 62 || c == 60 {
        if byte_at(s, j + 1) == 61 {
            LexStep::Token {
                lo: j,
                tok: if c == 61 { TokenView::RelOpEq } else if c == 33 { TokenView::RelOpNeq }
                    else if c == 62 { TokenView::RelOpGe } else { TokenView::RelOpLe },
                hi: j + 2,
            }
        } else {
            LexStep::Token {
                lo: j,
                tok: if c == 61 { TokenView::Assign } else if c == 33 { TokenView::OperatorNot }
                    else if c == 62 { TokenView::RelOpGr } else { TokenView::RelOpLt },
                hi: j + 1,
            }
        }
    } else if single_byte_token(c) is Some {
        LexStep::Token { lo: j, tok: single_byte_token(c).unwrap(), hi: j + 1 }
    } else {
        let e = if j + char_width(c) <= s.len() { j + char_width(c) } else { s.len() as int };
        LexStep::Error { err: LexError::UnknownToken { lo: j, hi: e }, resume: e }
    }
}

/// The next step of the lexer from position `i`: `None` once only trivia
/// is left.
pub open spec fn next_step(s: Seq<u8>, i: int) -> Option<LexStep> {
    let j = skip_trivia(s, i);
    if 0 <= j < s.len() { Some(scan_at(s, j)) } else { None }
}

// ---------------------------------------------------------------------------
// Errors

/// What went wrong at a place in the source; positions are local byte
/// offsets.
pub enum LexError {
    /// No token starts here, or a literal is not terminated.
    UnknownToken { lo: int, hi: int },
    /// An integer literal of `2^63` or more.
    IntTooLarge { lo: int, hi: int },
    /// `''`.
    EmptyChar { lo: int, hi: int },
    /// A character literal holding more than one character.
    MultiChar { lo: int, hi: int },
    /// `\c` for a character `c` that starts no escape.
    UnknownEscape { lo: int, hi: int, c: u32 },
    /// `\x` not followed by `{`.
    MissingBrace { lo: int, hi: int },
    /// `\x{}`.
    EmptyHex { lo: int, hi: int },
    /// `\x{` whose hex digits are not followed by `}`.
    UnclosedHex { lo: int, hi: int },
    /// `\x{..}` naming a UTF-16 surrogate half.
    Surrogate { lo: int, hi: int, value: nat },
    /// `\x{..}` above U+10FFFF.
    OutOfRange { lo: int, hi: int },
    /// Bytes of a literal that do not decode to a Unicode scalar value.
    InvalidUtf8 { lo: int, hi: int },
}

impl LexError {
    pub open spec fn lo(self) -> int {
        match self {
            LexError::UnknownToken { lo, .. } => lo,
            LexError::IntTooLarge { lo, .. } => lo,
            LexError::EmptyChar { lo, .. } => lo,
            LexError::MultiChar { lo, .. } => lo,
            LexError::UnknownEscape { lo, .. } => lo,
            LexError::MissingBrace { lo, .. } => lo,
            LexError::EmptyHex { lo, .. } => lo,
            LexError::UnclosedHex { lo, .. } => lo,
            LexError::Surrogate { lo, .. } => lo,
            LexError::OutOfRange { lo, .. } => lo,
            LexError::InvalidUtf8 { lo, .. } => lo,
        }
    }

    pub open spec fn hi(self) -> int {
        match self {
            LexError::UnknownToken { hi, .. } => hi,
            LexError::IntTooLarge { hi, .. } => hi,
            LexError::EmptyChar { hi, .. } => hi,
            LexError::MultiChar { hi, .. } => hi,
            LexError::UnknownEscape { hi, .. } => hi,
            LexError::MissingBrace { hi, .. } => hi,
            LexError::EmptyHex { hi, .. } => hi,
            LexError::UnclosedHex { hi, .. } => hi,
            LexError::Surrogate { hi, .. } => hi,
            LexError::OutOfRange { hi, .. } => hi,
            LexError::InvalidUtf8 { hi, .. } => hi,
        }
    }

    /// Main message of the diagnostic.
    pub open spec fn message(self) -> Seq<char> {
        match self {
            LexError::UnknownToken { .. } => "unknown token"@,
            LexError::IntTooLarge { .. } => "illegal integer literal: number too large to fit in target type"@,
            LexError::EmptyChar { .. } => "empty character literal"@,
            LexError::MultiChar { .. } => "character literal holds more than one character"@,
            LexError::UnknownEscape { c, .. } =>
                "unknown escape: '\\"@ + seq![char_of(c)] + "' is not a recognized escape sequence"@,
            LexError::MissingBrace { .. } => "expected '{{' after '\\x'"@,
            LexError::EmptyHex { .. } => "empty unicode escape expected non-empty hex between '{{' and '}}'"@,
            LexError::UnclosedHex { .. } => "unterminated unicode escape"@,
            LexError::Surrogate { .. } => "invalid unicode escape"@,
            LexError::OutOfRange { .. } => "unicode escape out of range"@,
            LexError::InvalidUtf8 { .. } => "invalid UTF-8 in literal"@,
        }
    }

    /// Note of the diagnostic, if any.
    pub open spec fn note(self) -> Option<Seq<char>> {
        match self {
            LexError::IntTooLarge { .. } => Some("eta only supports ints in the range [-2^63, 2^63)"@),
            LexError::EmptyChar { .. } => Some("a char literal must contain exactly one character"@),
            LexError::MultiChar { .. } => Some("a char literal must contain exactly one character"@),
            LexError::UnknownEscape { .. } =>
                Some("valid escapes: '\\n', '\\t', '\\r', '\\\\', '\\'', '\\\"', '\\0', '\\x{..}'"@),
            LexError::UnclosedHex { .. } => Some("expected a closing '}' before the end of the literal"@),
            LexError::Surrogate { value, .. } => Some(
                "U+"@ + digits(value, 16, true)
                    + " is a UTF-16 surrogate half and is not a valid Unicode scalar value; surrogate halves (U+D800\u{2013}U+DFFF) cannot be used in escape sequences"@,
            ),
            LexError::OutOfRange { .. } => Some("the maximum valid codepoint is U+10FFFF ('\\x{10FFFF}')"@),
            _ => None,
        }
    }

    /// Text of the label placed on the error's span.
    pub open spec fn label(self) -> Seq<char> {
        match self {
            LexError::UnknownToken { .. } => "this token"@,
            LexError::IntTooLarge { .. } => "this number is too large"@,
            LexError::EmptyChar { .. } => "empty here"@,
            LexError::MultiChar { .. } => "more than one character here"@,
            LexError::UnknownEscape { .. } => "this isn't a recognized escape sequence"@,
            LexError::MissingBrace { .. } => "at this escape sequence"@,
            LexError::EmptyHex { .. } => "expected non-empty hex here"@,
            LexError::UnclosedHex { .. } => "unicode escape unclosed here"@,
            LexError::Surrogate { .. } => "this escape produces a surrogate half"@,
            LexError::OutOfRange { .. } => "this isn't a valid codepoint"@,
            LexError::InvalidUtf8 { .. } => "not a Unicode scalar value"@,
        }
    }
}

/// The global span of local range `[lo, hi)` in a file placed at `base`.
pub open spec fn global_span(base: int, lo: int, hi: int) -> Span {
    Span { lo: (base + lo) as u32, hi: (base + hi) as u32 }
}

/// `d` is the diagnostic that reports `e` in a file placed at `base`.
pub open spec fn reports(d: Diagnostic, e: LexError, base: int) -> bool {
    &&& d.level == Level::Error
    &&& d.loc == Some(global_span(base, e.lo(), e.hi()))
    &&& d.message@ == e.message()
    &&& d.code is None
    &&& match d.note {
        Some(n) => e.note() == Some(n@),
        None => e.note() is None,
    }
    &&& d.labels@.len() == 1
    &&& d.labels@[0].0 == global_span(base, e.lo(), e.hi())
    &&& d.labels@[0].1@ == e.label()
}


// ---------------------------------------------------------------------------
// Executable scanning

fn line_end_exec(s: &[u8], i: usize) -> (e: usize)
    requires
        i <= s@.len(),
    ensures
        e == line_end(s@, i as int),
        i <= e <= s@.len(),
{
    let mut k = i;
    while k < s.len() && s[k] != 10
        invariant
            i <= k <= s@.len(),
            line_end(s@, k as int) == line_end(s@, i as int),
        decreases s@.len() - k,
    {
        k = k + 1;
    }
    k
}

fn skip_trivia_exec(s: &[u8], i: usize) -> (j: usize)
    requires
        i <= s@.len(),
    ensures
        j == skip_trivia(s@, i as int),
        i <= j <= s@.len(),
{
    let mut k = i;
    while k < s.len()
        invariant
            i <= k <= s@.len(),
            skip_trivia(s@, k as int) == skip_trivia(s@, i as int),
        decreases s@.len() - k,
    {
        let c = s[k];
        if c == 32 || c == 9 || c == 10 || c == 12 || c == 13 {
            k = k + 1;
        } else if c == 47 && k + 1 < s.len() && s[k + 1] == 47 {
            k = line_end_exec(s, k + 2);
        } else {
            return k;
        }
    }
    k
}

fn ident_end_exec(s: &[u8], i: usize) -> (e: usize)
    requires
        i <= s@.len(),
    ensures
        e == ident_end(s@, i as int),
        i <= e <= s@.len(),
        forall|k: int| i <= k < e ==> is_ident_continue(s@[k]),
{
    let mut k = i;
    while k < s.len() && (is_alpha_exec(s[k]) || is_digit_exec(s[k]) || s[k] == 95 || s[k] == 39)
        invariant
            i <= k <= s@.len(),
            ident_end(s@, k as int) == ident_end(s@, i as int),
            forall|m: int| i <= m < k ==> is_ident_continue(s@[m]),
        decreases s@.len() - k,
    {
        k = k + 1;
    }
    k
}

fn digits_end_exec(s: &[u8], i: usize) -> (e: usize)
    requires
        i <= s@.len(),
    ensures
        e == digits_end(s@, i as int),
        i <= e <= s@.len(),
{
    let mut k = i;
    while k < s.len() && is_digit_exec(s[k])
        invariant
            i <= k <= s@.len(),
            digits_end(s@, k as int) == digits_end(s@, i as int),
        decreases s@.len() - k,
    {
        k = k + 1;
    }
    k
}

fn hex_end_exec(s: &[u8], i: usize, b: usize) -> (e: usize)
    requires
        i <= b <= s@.len(),
    ensures
        e == hex_end(s@, i as int, b as int),
        i <= e <= b,
        forall|k: int| i <= k < e ==> is_hex_digit(s@[k]),
{
    let mut k = i;
    while k < b && is_hex_digit_exec(s[k])
        invariant
            i <= k <= b,
            b <= s@.len(),
            hex_end(s@, k as int, b as int) == hex_end(s@, i as int, b as int),
            forall|m: int| i <= m < k ==> is_hex_digit(s@[m]),
        decreases b - k,
    {
        k = k + 1;
    }
    k
}

fn is_alpha_exec(b: u8) -> (r: bool)
    ensures
        r == is_alpha(b),
{
    (65 <= b && b <= 90) || (97 <= b && b <= 122)
}

fn is_digit_exec(b: u8) -> (r: bool)
    ensures
        r == is_digit(b),
{
    48 <= b && b <= 57
}

fn is_hex_digit_exec(b: u8) -> (r: bool)
    ensures
        r == is_hex_digit(b),
{
    (48 <= b && b <= 57) || (65 <= b && b <= 70) || (97 <= b && b <= 102)
}

fn decimal_value_exec(s: &[u8], a: usize, e: usize) -> (v: u128)
    requires
        a <= e <= s@.len(),
        forall|k: int| a <= k < e ==> is_digit(s@[k]),
    ensures
        v == decimal_value(s@, a as int, e as int),
{
    let mut v: u128 = 0;
    let mut k = a;
    while k < e
        invariant
            a <= k <= e,
            e <= s@.len(),
            forall|m: int| a <= m < e ==> is_digit(s@[m]),
            v == decimal_value(s@, a as int, k as int),
            v <= int_limit() + 1,
        decreases e - k,
    {
        let d = (s[k] - 48) as u128;
        let nv = v * 10 + d;
        v = if nv > 0x8000_0000_0000_0000u128 { 0x8000_0000_0000_0001u128 } else { nv };
        k = k + 1;
    }
    v
}

fn hex_value_exec(s: &[u8], a: usize, e: usize) -> (v: u32)
    requires
        a <= e <= s@.len(),
        forall|k: int| a <= k < e ==> is_hex_digit(s@[k]),
    ensures
        v == hex_value(s@, a as int, e as int),
{
    let mut v: u32 = 0;
    let mut k = a;
    while k < e
        invariant
            a <= k <= e,
            e <= s@.len(),
            forall|m: int| a <= m < e ==> is_hex_digit(s@[m]),
            v == hex_value(s@, a as int, k as int),
            v <= code_point_limit(),
        decreases e - k,
    {
        let c = s[k];
        let d: u32 = if 48 <= c && c <= 57 { (c - 48) as u32 } else if 65 <= c && c <= 70 { (c - 55) as u32 } else { (c - 87) as u32 };
        let nv = v * 16 + d;
        v = if nv > 0x110000u32 { 0x110000u32 } else { nv };
        k = k + 1;
    }
    v
}

fn char_width_exec(b: u8) -> (w: usize)
    ensures
        w == char_width(b),
        1 <= w <= 4,
{
    if b < 0x80 { 1 } else if b >= 0xF0 { 4 } else if b >= 0xE0 { 3 } else if b >= 0xC0 { 2 } else { 1 }
}

fn utf8_value_exec(s: &[u8], k: usize, w: usize) -> (v: u32)
    requires
        1 <= w <= 4,
        k + w <= s@.len(),
    ensures
        v == utf8_value(s@, k as int, w as int),
{
    if w == 1 {
        s[k] as u32
    } else if w == 2 {
        (((s[k] & 0x1F) as u32) << 6u32) | ((s[k + 1] & 0x3F) as u32)
    } else if w == 3 {
        (((s[k] & 0x0F) as u32) << 12u32) | (((s[k + 1] & 0x3F) as u32) << 6u32) | ((s[k + 2] & 0x3F) as u32)
    } else {
        (((s[k] & 0x07) as u32) << 18u32) | (((s[k + 1] & 0x3F) as u32) << 12u32)
            | (((s[k + 2] & 0x3F) as u32) << 6u32) | ((s[k + 3] & 0x3F) as u32)
    }
}

fn quote_scan_exec(s: &[u8], i: usize, q: u8) -> (r: (bool, usize))
    requires
        i <= s@.len(),
    ensures
        r.0 == quote_scan(s@, i as int, q).0,
        r.1 == quote_scan(s@, i as int, q).1,
        i <= r.1 <= s@.len(),
        r.0 ==> r.1 < s@.len(),
{
    let mut k = i;
    while k < s.len()
        invariant
            i <= k <= s@.len(),
            quote_scan(s@, k as int, q) == quote_scan(s@, i as int, q),
        decreases s@.len() - k,
    {
        let c = s[k];
        if c == q {
            return (true, k);
        } else if c == 92 {
            if k + 1 >= s.len() {
                return (false, s.len());
            } else if s[k + 1] == 10 {
                return (false, k + 1);
            } else {
                k = k + 2;
            }
        } else {
            k = k + 1;
        }
    }
    (false, s.len())
}

/// An executable [`LexError`].
enum LexErr {
    UnknownToken { lo: usize, hi: usize },
    IntTooLarge { lo: usize, hi: usize },
    EmptyChar { lo: usize, hi: usize },
    MultiChar { lo: usize, hi: usize },
    UnknownEscape { lo: usize, hi: usize, c: char },
    MissingBrace { lo: usize, hi: usize },
    EmptyHex { lo: usize, hi: usize },
    UnclosedHex { lo: usize, hi: usize },
    Surrogate { lo: usize, hi: usize, value: u32 },
    OutOfRange { lo: usize, hi: usize },
    InvalidUtf8 { lo: usize, hi: usize },
}

impl View for LexErr {
    type V = LexError;

    closed spec fn view(&self) -> LexError {
        match *self {
            LexErr::UnknownToken { lo, hi } => LexError::UnknownToken { lo: lo as int, hi: hi as int },
            LexErr::IntTooLarge { lo, hi } => LexError::IntTooLarge { lo: lo as int, hi: hi as int },
            LexErr::EmptyChar { lo, hi } => LexError::EmptyChar { lo: lo as int, hi: hi as int },
            LexErr::MultiChar { lo, hi } => LexError::MultiChar { lo: lo as int, hi: hi as int },
            LexErr::UnknownEscape { lo, hi, c } => LexError::UnknownEscape { lo: lo as int, hi: hi as int, c: code_point(c) },
            LexErr::MissingBrace { lo, hi } => LexError::MissingBrace { lo: lo as int, hi: hi as int },
            LexErr::EmptyHex { lo, hi } => LexError::EmptyHex { lo: lo as int, hi: hi as int },
            LexErr::UnclosedHex { lo, hi } => LexError::UnclosedHex { lo: lo as int, hi: hi as int },
            LexErr::Surrogate { lo, hi, value } => LexError::Surrogate { lo: lo as int, hi: hi as int, value: value as nat },
            LexErr::OutOfRange { lo, hi } => LexError::OutOfRange { lo: lo as int, hi: hi as int },
            LexErr::InvalidUtf8 { lo, hi } => LexError::InvalidUtf8 { lo: lo as int, hi: hi as int },
        }
    }
}

fn body_step_exec(s: &[u8], k: usize, b: usize) -> (r: Result<(char, usize), LexErr>)
    requires
        k < b <= s@.len(),
    ensures
        match r {
            Ok((ch, k2)) => body_step(s@, k as int, b as int) == Ok::<(u32, int), LexError>((code_point(ch), k2 as int)),
            Err(e) => body_step(s@, k as int, b as int) == Err::<(u32, int), LexError>(e@),
        },
        r matches Ok((ch, k2)) ==> k < k2 <= b,
        r matches Err(e) ==> k <= e@.lo() <= e@.hi() <= b,
{
    let c = s[k];
    if c != 92 {
        let w = char_width_exec(c);
        if w > b - k {
            return Err(LexErr::InvalidUtf8 { lo: k, hi: b });
        }
        let v = utf8_value_exec(s, k, w);
        match char_from_u32(v) {
            Some(ch) => Ok((ch, k + w)),
            None => Err(LexErr::InvalidUtf8 { lo: k, hi: k + w }),
        }
    } else if k + 1 >= b {
        Ok(('\\', b))
    } else {
        let e = s[k + 1];
        if e == 110 {
            Ok(('\n', k + 2))
        } else if e == 116 {
            Ok(('\t', k + 2))
        } else if e == 114 {
            Ok(('\r', k + 2))
        } else if e == 92 {
            Ok(('\\', k + 2))
        } else if e == 39 {
            Ok(('\'', k + 2))
        } else if e == 34 {
            Ok(('"', k + 2))
        } else if e == 48 {
            Ok(('\0', k + 2))
        } else if e == 120 {
            if k + 2 < b && s[k + 2] == 123 {
                let h = hex_end_exec(s, k + 3, b);
                if h < b && s[h] == 125 {
                    if h == k + 3 {
                        Err(LexErr::EmptyHex { lo: k, hi: h })
                    } else {
                        let v = hex_value_exec(s, k + 3, h);
                        if 0xD800 <= v && v <= 0xDFFF {
                            Err(LexErr::Surrogate { lo: k, hi: h + 1, value: v })
                        } else if v > 0x10FFFF {
                            Err(LexErr::OutOfRange { lo: k + 3, hi: h })
                        } else {
                            match char_from_u32(v) {
                                Some(ch) => Ok((ch, h + 1)),
                                None => Err(LexErr::OutOfRange { lo: k + 3, hi: h }),
                            }
                        }
                    }
                } else {
                    Err(LexErr::UnclosedHex { lo: k, hi: h })
                }
            } else {
                Err(LexErr::MissingBrace { lo: k, hi: k + 2 })
            }
        } else {
            let w = char_width_exec(e);
            if w > b - (k + 1) {
                return Err(LexErr::InvalidUtf8 { lo: k + 1, hi: b });
            }
            let v = utf8_value_exec(s, k + 1, w);
            match char_from_u32(v) {
                Some(ch) => Err(LexErr::UnknownEscape { lo: k, hi: k + 1 + w, c: ch }),
                None => Err(LexErr::InvalidUtf8 { lo: k + 1, hi: k + 1 + w }),
            }
        }
    }
}

/// `r` with `p` put in front of its sequence.
pub open spec fn prepend(p: Seq<u32>, r: Result<Seq<u32>, LexError>) -> Result<Seq<u32>, LexError> {
    match r {
        Ok(rest) => Ok(p + rest),
        Err(e) => Err(e),
    }
}

fn decode_body_exec(s: &[u8], k0: usize, b: usize) -> (r: Result<Vec<char>, LexErr>)
    requires
        k0 <= b <= s@.len(),
    ensures
        match r {
            Ok(v) => decode_body(s@, k0 as int, b as int) == Ok::<Seq<u32>, LexError>(code_points(v@)),
            Err(e) => decode_body(s@, k0 as int, b as int) == Err::<Seq<u32>, LexError>(e@),
        },
        r matches Err(e) ==> k0 <= e@.lo() <= e@.hi() <= b,
{
    let mut acc: Vec<char> = Vec::new();
    let mut k = k0;
    while k < b
        invariant
            k0 <= k <= b,
            b <= s@.len(),
            decode_body(s@, k0 as int, b as int) == prepend(code_points(acc@), decode_body(s@, k as int, b as int)),
        decreases b - k,
    {
        match body_step_exec(s, k, b) {
            Err(e) => {
                return Err(e);
            }
            Ok((ch, k2)) => {
                let ghost before = acc@;
                acc.push(ch);
                assert(code_points(acc@) =~= code_points(before) + seq![code_point(ch)]);
                assert(forall|x: Seq<u32>| #![auto] (code_points(before) + seq![code_point(ch)]) + x =~= code_points(before) + (seq![code_point(ch)] + x));
                k = k2;
            }
        }
    }
    assert(code_points(acc@) + Seq::<u32>::empty() =~= code_points(acc@));
    Ok(acc)
}

/// An executable [`LexStep`].
enum Step {
    Tok(usize, Token, usize),
    Fail(LexErr, usize),
}

impl Step {
    closed spec fn view(&self) -> LexStep {
        match self {
            Step::Tok(lo, t, hi) => LexStep::Token { lo: *lo as int, tok: t@, hi: *hi as int },
            Step::Fail(e, r) => LexStep::Error { err: e@, resume: *r as int },
        }
    }
}

/// Whether `s[j..e]` equals `w`.
fn slice_is(s: &[u8], j: usize, e: usize, w: &Vec<u8>) -> (r: bool)
    requires
        j <= e <= s@.len(),
    ensures
        r == (s@.subrange(j as int, e as int) == w@),
{
    if e - j != w.len() {
        assert(s@.subrange(j as int, e as int).len() != w@.len());
        return false;
    }
    let mut k: usize = 0;
    while k < w.len()
        invariant
            k <= w@.len(),
            e - j == w@.len(),
            j <= e <= s@.len(),
            forall|m: int| 0 <= m < k ==> s@[j + m] == w@[m],
        decreases w.len() - k,
    {
        if s[j + k] != w[k] {
            assert(s@.subrange(j as int, e as int)[k as int] != w@[k as int]);
            return false;
        }
        k = k + 1;
    }
    assert(s@.subrange(j as int, e as int) =~= w@);
    true
}

/// The characters of `s[j..e]`, one per byte.
fn ascii_string(s: &[u8], j: usize, e: usize) -> (r: String)
    requires
        j <= e <= s@.len(),
    ensures
        r@ == ascii_chars(s@.subrange(j as int, e as int)),
{
    let mut out = String::new();
    let mut k = j;
    while k < e
        invariant
            j <= k <= e,
            e <= s@.len(),
            out@ == ascii_chars(s@.subrange(j as int, k as int)),
        decreases e - k,
    {
        let b = s[k];
        string_push(&mut out, b as char);
        k = k + 1;
        assert(out@ =~= ascii_chars(s@.subrange(j as int, k as int)));
    }
    out
}

fn word_token_exec(s: &[u8], j: usize, e: usize) -> (t: Token)
    requires
        j <= e <= s@.len(),
    ensures
        t@ == word_token(s@.subrange(j as int, e as int)),
{
    if slice_is(s, j, e, &Token::KeywordUse.spelling()) {
        Token::KeywordUse
    } else if slice_is(s, j, e, &Token::KeywordLength.spelling()) {
        Token::KeywordLength
    } else if slice_is(s, j, e, &Token::KeywordWhile.spelling()) {
        Token::KeywordWhile
    } else if slice_is(s, j, e, &Token::KeywordIf.spelling()) {
        Token::KeywordIf
    } else if slice_is(s, j, e, &Token::KeywordElse.spelling()) {
        Token::KeywordElse
    } else if slice_is(s, j, e, &Token::KeywordReturn.spelling()) {
        Token::KeywordReturn
    } else if slice_is(s, j, e, &Token::KeywordInt.spelling()) {
        Token::KeywordInt
    } else if slice_is(s, j, e, &Token::KeywordBool.spelling()) {
        Token::KeywordBool
    } else if slice_is(s, j, e, &vec![116u8, 114, 117, 101]) {
        Token::BoolLiteral(true)
    } else if slice_is(s, j, e, &vec![102u8, 97, 108, 115, 101]) {
        Token::BoolLiteral(false)
    } else {
        Token::Identifier(ascii_string(s, j, e))
    }
}

fn scan_literal_exec(s: &[u8], j: usize) -> (r: Step)
    requires
        j < s@.len(),
        s@[j as int] == 39 || s@[j as int] == 34,
    ensures
        r.view() == scan_literal(s@, j as int),
        j < r.view().resume() <= s@.len(),
        match r.view() {
            LexStep::Token { lo, hi, .. } => lo == j && lo < hi,
            LexStep::Error { err, resume } => j <= err.lo() <= err.hi() <= resume,
        },
{
    let q = s[j];
    let (closed, p) = quote_scan_exec(s, j + 1, q);
    if !closed {
        return Step::Fail(LexErr::UnknownToken { lo: j, hi: p }, p);
    }
    let end = p + 1;
    match decode_body_exec(s, j + 1, p) {
        Err(e) => Step::Fail(e, end),
        Ok(chars) => {
            if q == 34 {
                let st = chars_to_string(&chars);
                Step::Tok(j, Token::StrLiteral(st), end)
            } else if chars.len() == 0 {
                Step::Fail(LexErr::EmptyChar { lo: j, hi: end }, end)
            } else if chars.len() > 1 {
                Step::Fail(LexErr::MultiChar { lo: j, hi: end }, end)
            } else {
                let c = chars[0];
                Step::Tok(j, Token::CharLiteral(c as u32), end)
            }
        }
    }
}

fn single_byte_token_exec(c: u8) -> (r: Option<Token>)
    ensures
        match r {
            Some(t) => single_byte_token(c) == Some(t@),
            None => single_byte_token(c) is None,
        },
{
    if c == 59 { Some(Token::SemiColon) }
    else if c == 95 { Some(Token::Discard) }
    else if c == 58 { Some(Token::OfType) }
    else if c == 44 { Some(Token::Comma) }
    else if c == 40 { Some(Token::LParen) }
    else if c == 41 { Some(Token::RParen) }
    else if c == 91 { Some(Token::LBracket) }
    else if c == 93 { Some(Token::RBracket) }
    else if c == 123 { Some(Token::BlockOpen) }
    else if c == 125 { Some(Token::BlockClose) }
    else if c == 47 { Some(Token::OperatorDiv) }
    else if c == 37 { Some(Token::OperatorMod) }
    else if c == 45 { Some(Token::Minus) }
    else if c == 43 { Some(Token::OperatorAdd) }
    else if c == 38 { Some(Token::Land) }
    else if c == 124 { Some(Token::Lor) }
    else { None }
}

fn byte_at_exec(s: &[u8], i: usize) -> (b: u8)
    ensures
        b == byte_at(s@, i as int),
{
    if i < s.len() { s[i] } else { 0 }
}

fn scan_at_exec(s: &[u8], j: usize) -> (r: Step)
    requires
        j < s@.len(),
    ensures
        r.view() == scan_at(s@, j as int),
        j < r.view().resume() <= s@.len(),
        match r.view() {
            LexStep::Token { lo, hi, .. } => lo == j && lo < hi,
            LexStep::Error { err, resume } => j <= err.lo() <= err.hi() <= resume,
        },
{
    let c = s[j];
    if is_alpha_exec(c) {
        let e = ident_end_exec(s, j + 1);
        Step::Tok(j, word_token_exec(s, j, e), e)
    } else if c == 48 {
        Step::Tok(j, Token::Integer(0), j + 1)
    } else if is_digit_exec(c) {
        let e = digits_end_exec(s, j + 1);
        assert(forall|k: int| j <= k < e ==> is_digit(s@[k])) by {
            assert forall|k: int| j <= k < e implies is_digit(s@[k]) by {
                if k > j {
                    lemma_digits_run(s@, j + 1, k);
                }
            }
        }
        let v = decimal_value_exec(s, j, e);
        if v < 0x8000_0000_0000_0000u128 {
            Step::Tok(j, Token::Integer(v as i64), e)
        } else {
            Step::Fail(LexErr::IntTooLarge { lo: j, hi: e }, e)
        }
    } else if c == 45 && is_digit_exec(byte_at_exec(s, j + 1)) {
        if s[j + 1] == 48 {
            Step::Tok(j, Token::Integer(0), j + 2)
        } else {
            let e = digits_end_exec(s, j + 2);
            assert(forall|k: int| j + 1 <= k < e ==> is_digit(s@[k])) by {
                assert forall|k: int| j + 1 <= k < e implies is_digit(s@[k]) by {
                    if k > j + 1 {
                        lemma_digits_run(s@, j + 2, k);
                    }
                }
            }
            let v = decimal_value_exec(s, j + 1, e);
            if v <= 0x8000_0000_0000_0000u128 {
                let n: i128 = 0i128 - (v as i128);
                Step::Tok(j, Token::Integer(n as i64), e)
            } else {
                Step::Fail(LexErr::IntTooLarge { lo: j, hi: e }, e)
            }
        }
    } else if c == 39 || c == 34 {
        scan_literal_exec(s, j)
    } else if c == 42 {
        if byte_at_exec(s, j + 1) == 62 && byte_at_exec(s, j + 2) == 62 {
            Step::Tok(j, Token::OperatorHighMul, j + 3)
        } else {
            Step::Tok(j, Token::OperatorMul, j + 1)
        }
    } else if c == 61 || c == 33 || c == 62 || c == 60 {
        if byte_at_exec(s, j + 1) == 61 {
            let t = if c == 61 { Token::RelOpEq } else if c == 33 { Token::RelOpNeq }
                else if c == 62 { Token::RelOpGe } else { Token::RelOpLe };
            Step::Tok(j, t, j + 2)
        } else {
            let t = if c == 61 { Token::Assign } else if c == 33 { Token::OperatorNot }
                else if c == 62 { Token::RelOpGr } else { Token::RelOpLt };
            Step::Tok(j, t, j + 1)
        }
    } else {
        match single_byte_token_exec(c) {
            Some(t) => Step::Tok(j, t, j + 1),
            None => {
                let w = char_width_exec(c);
                let e = if w <= s.len() - j { j + w } else { s.len() };
                Step::Fail(LexErr::UnknownToken { lo: j, hi: e }, e)
            }
        }
    }
}

proof fn lemma_digits_run(s: Seq<u8>, i: int, k: int)
    requires
        0 <= i <= k < digits_end(s, i),
        digits_end(s, i) <= s.len(),
    ensures
        is_digit(s[k]),
    decreases k - i,
{
    if i < k {
        lemma_digits_run(s, i + 1, k);
    }
}

fn lit(s: &str) -> (r: String)
    ensures
        r@ == s@,
{
    String::from_str(s)
}

/// The diagnostic reporting `e` in a file placed at `base`.
fn report(e: &LexErr, base: usize) -> (d: Diagnostic)
    requires
        base + e@.hi() <= u32::MAX,
        0 <= e@.lo() <= e@.hi(),
    ensures
        reports(d, e@, base as int),
{
    let (lo, hi) = match e {
        LexErr::UnknownToken { lo, hi } => (*lo, *hi),
        LexErr::IntTooLarge { lo, hi } => (*lo, *hi),
        LexErr::EmptyChar { lo, hi } => (*lo, *hi),
        LexErr::MultiChar { lo, hi } => (*lo, *hi),
        LexErr::UnknownEscape { lo, hi, .. } => (*lo, *hi),
        LexErr::MissingBrace { lo, hi } => (*lo, *hi),
        LexErr::EmptyHex { lo, hi } => (*lo, *hi),
        LexErr::UnclosedHex { lo, hi } => (*lo, *hi),
        LexErr::Surrogate { lo, hi, .. } => (*lo, *hi),
        LexErr::OutOfRange { lo, hi } => (*lo, *hi),
        LexErr::InvalidUtf8 { lo, hi } => (*lo, *hi),
    };
    assert(lo == e@.lo() && hi == e@.hi());
    let span = Span::new((base + lo) as u32, (base + hi) as u32);
    let (message, note, label) = match e {
        LexErr::UnknownToken { .. } => (lit("unknown token"), None, lit("this token")),
        LexErr::IntTooLarge { .. } => (
            lit("illegal integer literal: number too large to fit in target type"),
            Some(lit("eta only supports ints in the range [-2^63, 2^63)")),
            lit("this number is too large"),
        ),
        LexErr::EmptyChar { .. } => (
            lit("empty character literal"),
            Some(lit("a char literal must contain exactly one character")),
            lit("empty here"),
        ),
        LexErr::MultiChar { .. } => (
            lit("character literal holds more than one character"),
            Some(lit("a char literal must contain exactly one character")),
            lit("more than one character here"),
        ),
        LexErr::UnknownEscape { c, .. } => {
            let mut m = lit("unknown escape: '\\");
            string_push(&mut m, *c);
            m.append("' is not a recognized escape sequence");
            proof {
                let ch = *c;
                assert(code_point(ch) == code_point(ch));
                assert(char_of(code_point(ch)) == ch);
                assert(m@ =~= e@.message());
            }
            (
                m,
                Some(lit("valid escapes: '\\n', '\\t', '\\r', '\\\\', '\\'', '\\\"', '\\0', '\\x{..}'")),
                lit("this isn't a recognized escape sequence"),
            )
        }
        LexErr::MissingBrace { .. } => (lit("expected '{{' after '\\x'"), None, lit("at this escape sequence")),
        LexErr::EmptyHex { .. } => (
            lit("empty unicode escape expected non-empty hex between '{{' and '}}'"),
            None,
            lit("expected non-empty hex here"),
        ),
        LexErr::UnclosedHex { .. } => (
            lit("unterminated unicode escape"),
            Some(lit("expected a closing '}' before the end of the literal")),
            lit("unicode escape unclosed here"),
        ),
        LexErr::Surrogate { value, .. } => {
            let mut n = lit("U+");
            let mut hex: Vec<char> = Vec::new();
            push_digits(&mut hex, *value as u64, 16, true);
            let h = chars_to_string(&hex);
            n.append(h.as_str());
            n.append(" is a UTF-16 surrogate half and is not a valid Unicode scalar value; surrogate halves (U+D800\u{2013}U+DFFF) cannot be used in escape sequences");
            assert(n@ =~= e@.note().unwrap());
            (lit("invalid unicode escape"), Some(n), lit("this escape produces a surrogate half"))
        }
        LexErr::OutOfRange { .. } => (
            lit("unicode escape out of range"),
            Some(lit("the maximum valid codepoint is U+10FFFF ('\\x{10FFFF}')")),
            lit("this isn't a valid codepoint"),
        ),
        LexErr::InvalidUtf8 { .. } => (lit("invalid UTF-8 in literal"), None, lit("not a Unicode scalar value")),
    };
    let d = Diagnostic::error(span, message);
    let d = match note {
        Some(n) => d.with_note(n),
        None => d,
    };
    d.with_primary_label(label)
}

/// Lexes `source`, a file placed at `base` in the global source space.
/// Yields tokens with their global byte spans, or a diagnostic for input
/// that is not a token.
pub struct Lexer<'src> {
    src: &'src [u8],
    base: usize,
    pos: usize,
}

/// `r` is what the lexer yields for `step` in a file placed at `base`.
pub open spec fn yields(r: Result<(usize, Token, usize), Diagnostic>, step: LexStep, base: int) -> bool {
    match step {
        LexStep::Token { lo, tok, hi } => match r {
            Ok((a, t, b)) => a == base + lo && b == base + hi && t@ == tok,
            Err(_) => false,
        },
        LexStep::Error { err, .. } => match r {
            Ok(_) => false,
            Err(d) => reports(d, err, base),
        },
    }
}

impl<'src> Lexer<'src> {
    #[verifier::type_invariant]
    spec fn inv(self) -> bool {
        &&& self.pos <= self.src@.len()
        &&& self.base + self.src@.len() <= u32::MAX
    }

    /// The bytes being lexed.
    pub closed spec fn source(self) -> Seq<u8> {
        self.src@
    }

    /// Local offset where the next step starts.
    pub closed spec fn position(self) -> int {
        self.pos as int
    }

    /// Global offset of the file's first byte.
    pub closed spec fn base(self) -> int {
        self.base as int
    }

    /// A lexer at the start of `source`, whose first byte sits at global
    /// offset `base`. The global space is addressed with `u32`.
    pub fn new(base: usize, source: &'src str) -> (l: Lexer<'src>)
        requires
            base + source.spec_bytes().len() <= u32::MAX,
        ensures
            l.source() == source.spec_bytes(),
            l.position() == 0,
            l.base() == base,
    {
        Lexer { src: source.as_bytes(), base, pos: 0 }
    }

    /// The next token (or diagnostic), or `None` once only whitespace and
    /// comments are left.
    pub fn next(&mut self) -> (r: Option<Result<(usize, Token, usize), Diagnostic>>)
        ensures
            final(self).source() == old(self).source(),
            final(self).base() == old(self).base(),
            match next_step(old(self).source(), old(self).position()) {
                None => r is None && final(self).position() == old(self).source().len(),
                Some(step) => match r {
                    Some(x) => yields(x, step, old(self).base()) && final(self).position() == step.resume(),
                    None => false,
                },
            },
    {
        proof { use_type_invariant(&*self); }
        let s = self.src;
        let j = skip_trivia_exec(s, self.pos);
        if j >= s.len() {
            self.pos = j;
            return None;
        }
        let step = scan_at_exec(s, j);
        match step {
            Step::Tok(lo, t, hi) => {
                self.pos = hi;
                Some(Ok((self.base + lo, t, self.base + hi)))
            }
            Step::Fail(e, resume) => {
                let d = report(&e, self.base);
                self.pos = resume;
                Some(Err(d))
            }
        }
    }
}

// ---------------------------------------------------------------------------
// Laws

proof fn lemma_skip_trivia_bounds(s: Seq<u8>, i: int)
    requires
        0 <= i <= s.len(),
    ensures
        i <= skip_trivia(s, i) <= s.len(),
    decreases s.len() - i,
{
    if i < s.len() {
        if is_ws(s[i]) {
            lemma_skip_trivia_bounds(s, i + 1);
        } else if s[i] == 47 && i + 1 < s.len() && s[i + 1] == 47 {
            lemma_line_end_bounds(s, i + 2);
            lemma_skip_trivia_bounds(s, line_end(s, i + 2));
        }
    }
}

proof fn lemma_ident_end_bounds(s: Seq<u8>, i: int)
    requires
        0 <= i <= s.len(),
    ensures
        i <= ident_end(s, i) <= s.len(),
    decreases s.len() - i,
{
    if i < s.len() && is_ident_continue(s[i]) {
        lemma_ident_end_bounds(s, i + 1);
    }
}

proof fn lemma_digits_end_bounds(s: Seq<u8>, i: int)
    requires
        0 <= i <= s.len(),
    ensures
        i <= digits_end(s, i) <= s.len(),
    decreases s.len() - i,
{
    if i < s.len() && is_digit(s[i]) {
        lemma_digits_end_bounds(s, i + 1);
    }
}

proof fn lemma_quote_scan_bounds(s: Seq<u8>, i: int, q: u8)
    requires
        0 <= i <= s.len(),
    ensures
        i <= quote_scan(s, i, q).1 <= s.len(),
        quote_scan(s, i, q).0 ==> quote_scan(s, i, q).1 < s.len() && s[quote_scan(s, i, q).1] == q,
    decreases s.len() - i,
{
    if i < s.len() && s[i] != q {
        if s[i] == 92 {
            if i + 1 < s.len() && s[i + 1] != 10 {
                lemma_quote_scan_bounds(s, i + 2, q);
            }
        } else {
            lemma_quote_scan_bounds(s, i + 1, q);
        }
    }
}

proof fn lemma_body_step_facts(s: Seq<u8>, k: int, b: int)
    requires
        0 <= k < b <= s.len(),
    ensures
        body_step(s, k, b) matches Ok((v, k2)) ==> k < k2 <= b && is_scalar(v),
        body_step(s, k, b) matches Err(e) ==> k <= e.lo() <= e.hi() <= b,
{
    lemma_body_step_advances(s, k, b);
    if s[k] == 92 && k + 2 < b && s[k + 1] == 120 && s[k + 2] == 123 {
        lemma_hex_end_bounds(s, k + 3, b);
    }
}

proof fn lemma_decode_body_facts(s: Seq<u8>, k: int, b: int)
    requires
        0 <= k <= b <= s.len(),
    ensures
        decode_body(s, k, b) matches Ok(v) ==> forall|i: int| 0 <= i < v.len() ==> is_scalar(#[trigger] v[i]),
        decode_body(s, k, b) matches Err(e) ==> k <= e.lo() <= e.hi() <= b,
    decreases b - k,
{
    if k < b {
        lemma_body_step_facts(s, k, b);
        if let Ok((v, k2)) = body_step(s, k, b) {
            lemma_decode_body_facts(s, k2, b);
            if let Ok(rest) = decode_body(s, k2, b) {
                let all = seq![v] + rest;
                assert forall|i: int| 0 <= i < all.len() implies is_scalar(#[trigger] all[i]) by {
                    if i > 0 {
                        assert(all[i] == rest[i - 1]);
                    }
                }
            }
        }
    }
}

proof fn lemma_scan_at_bounds(s: Seq<u8>, j: int)
    requires
        0 <= j < s.len(),
    ensures
        j < scan_at(s, j).resume() <= s.len(),
        scan_at(s, j) matches LexStep::Token { lo, hi, .. } ==> lo == j && lo < hi,
        scan_at(s, j) matches LexStep::Error { err, resume } ==> j <= err.lo() <= err.hi() <= resume,
        scan_at(s, j) matches LexStep::Token { tok, .. } ==> tok.well_formed(),
{
    let c = s[j];
    if is_alpha(c) {
        lemma_ident_end_bounds(s, j + 1);
    } else if c == 48 {
    } else if is_digit(c) {
        lemma_digits_end_bounds(s, j + 1);
    } else if c == 45 && is_digit(byte_at(s, j + 1)) {
        if s[j + 1] != 48 {
            lemma_digits_end_bounds(s, j + 2);
        }
    } else if c == 39 || c == 34 {
        lemma_quote_scan_bounds(s, j + 1, c);
        let (closed, p) = quote_scan(s, j + 1, c);
        if closed {
            lemma_decode_body_facts(s, j + 1, p);
        }
    }
}

/// Every step of the lexer moves forward and stays within the source: a
/// token occupies `[lo, hi)` at or after the position it starts from and
/// lexing resumes at `hi`; an error's span lies between that position and
/// where lexing resumes; and the lexer stops only when nothing but
/// whitespace and comments is left. So lexing a file terminates, and the
/// tokens come out in source order without overlapping.
pub proof fn lemma_step_moves_forward(s: Seq<u8>, i: int)
    requires
        0 <= i <= s.len(),
    ensures
        next_step(s, i) matches Some(st) ==> i < st.resume() <= s.len(),
        next_step(s, i) matches Some(LexStep::Token { lo, hi, .. }) ==> i <= lo < hi,
        next_step(s, i) matches Some(LexStep::Error { err, resume }) ==> i <= err.lo() <= err.hi() <= resume,
        next_step(s, i) is None ==> skip_trivia(s, i) == s.len(),
{
    lemma_skip_trivia_bounds(s, i);
    let j = skip_trivia(s, i);
    if j < s.len() {
        lemma_scan_at_bounds(s, j);
    }
}

/// Every token the lexer yields is well formed: character and string
/// literals hold Unicode scalar values only.
pub proof fn lemma_tokens_well_formed(s: Seq<u8>, i: int)
    requires
        0 <= i <= s.len(),
    ensures
        next_step(s, i) matches Some(LexStep::Token { tok, .. }) ==> tok.well_formed(),
{
    lemma_skip_trivia_bounds(s, i);
    let j = skip_trivia(s, i);
    if j < s.len() {
        lemma_scan_at_bounds(s, j);
    }
}

/// A token with a fixed spelling is spelled by the source text it spans,
/// and an identifier is named by the source text it spans.
pub proof fn lemma_token_text(s: Seq<u8>, i: int)
    requires
        0 <= i <= s.len(),
    ensures
        next_step(s, i) matches Some(LexStep::Token { lo, tok, hi })
            ==> (spelling(tok).len() > 0 ==> s.subrange(lo, hi) == spelling(tok)),
        next_step(s, i) matches Some(LexStep::Token { lo, tok: TokenView::Identifier(name), hi })
            ==> name == ascii_chars(s.subrange(lo, hi)),
{
    lemma_skip_trivia_bounds(s, i);
    let j = skip_trivia(s, i);
    if j < s.len() {
        lemma_scan_at_bounds(s, j);
        assert(s.subrange(j, j + 1) =~= seq![s[j]]);
        if j + 1 < s.len() {
            assert(s.subrange(j, j + 2) =~= seq![s[j], s[j + 1]]);
        }
        if j + 2 < s.len() {
            assert(s.subrange(j, j + 3) =~= seq![s[j], s[j + 1], s[j + 2]]);
        }
    }
}

proof fn lemma_decimal_text(s: Seq<u8>, a: int, e: int)
    requires
        0 <= a < e <= s.len(),
        forall|k: int| a <= k < e ==> is_digit(#[trigger] s[k]),
        s[a] != 48,
        decimal_value(s, a, e) <= int_limit(),
    ensures
        decimal(decimal_value(s, a, e)) == ascii_chars(s.subrange(a, e)),
        decimal_value(s, a, e) >= 1,
    decreases e - a,
{
    let d = (s[e - 1] - 48) as nat;
    assert(is_digit(s[e - 1]));
    assert(digit_char(d) == s[e - 1] as char);
    if e == a + 1 {
        assert(decimal_value(s, a, a) == 0);
        assert(decimal_value(s, a, e) == d);
        assert(s.subrange(a, e) =~= seq![s[a]]);
        assert(ascii_chars(s.subrange(a, e)) =~= seq![s[a] as char]);
    } else {
        let v0 = decimal_value(s, a, e - 1);
        let v = decimal_value(s, a, e);
        assert(v == v0 * 10 + d);
        lemma_decimal_text(s, a, e - 1);
        assert(v / 10 == v0 && v % 10 == d && v >= 10) by (nonlinear_arith)
            requires
                v == v0 * 10 + d,
                d < 10,
                v0 >= 1,
        ;
        assert(decimal(v) == decimal(v0) + seq![digit_char(d)]);
        assert(s.subrange(a, e) =~= s.subrange(a, e - 1).push(s[e - 1]));
        assert(ascii_chars(s.subrange(a, e)) =~= ascii_chars(s.subrange(a, e - 1)).push(s[e - 1] as char));
    }
}

/// An integer literal renders back to the source text it spans: its
/// decimal digits, after a `-` when it is negative. The one exception is
/// `-0`, which is the integer 0.
pub proof fn lemma_integer_text(s: Seq<u8>, i: int)
    requires
        0 <= i <= s.len(),
    ensures
        next_step(s, i) matches Some(LexStep::Token { lo, tok: TokenView::Integer(n), hi })
            ==> signed_decimal(n as int) == ascii_chars(s.subrange(lo, hi)) || s.subrange(lo, hi) == seq![45u8, 48u8],
{
    lemma_skip_trivia_bounds(s, i);
    let j = skip_trivia(s, i);
    if j < s.len() {
        lemma_scan_at_bounds(s, j);
        let c = s[j];
        if is_alpha(c) {
        } else if c == 48 {
            assert(s.subrange(j, j + 1) =~= seq![s[j]]);
            assert(ascii_chars(s.subrange(j, j + 1)) =~= seq!['0']);
        } else if is_digit(c) {
            let e = digits_end(s, j + 1);
            lemma_digits_end_bounds(s, j + 1);
            assert forall|k: int| j <= k < e implies is_digit(#[trigger] s[k]) by {
                if k > j {
                    lemma_digits_run(s, j + 1, k);
                }
            }
            if decimal_value(s, j, e) < int_limit() {
                lemma_decimal_text(s, j, e);
            }
        } else if c == 45 && is_digit(byte_at(s, j + 1)) {
            if s[j + 1] == 48 {
                assert(s.subrange(j, j + 2) =~= seq![45u8, 48u8]);
            } else {
                let e = digits_end(s, j + 2);
                lemma_digits_end_bounds(s, j + 2);
                assert forall|k: int| j + 1 <= k < e implies is_digit(#[trigger] s[k]) by {
                    if k > j + 1 {
                        lemma_digits_run(s, j + 2, k);
                    }
                }
                let v = decimal_value(s, j + 1, e);
                if v <= int_limit() {
                    lemma_decimal_text(s, j + 1, e);
                    assert(((0 - v) as i64) as int == 0 - v);
                    assert(s.subrange(j, e) =~= seq![45u8] + s.subrange(j + 1, e));
                    assert(ascii_chars(s.subrange(j, e)) =~= seq!['-'] + ascii_chars(s.subrange(j + 1, e)));
                }
            }
        }
    }
}

/// Whether the bytes `w` occur in `s` at position `j`.
pub open spec fn spells_at(s: Seq<u8>, j: int, w: Seq<u8>) -> bool {
    &&& 0 <= j
    &&& j + w.len() <= s.len()
    &&& s.subrange(j, j + w.len()) == w
}

/// Whether `t` is an operator or punctuation token: one with a fixed
/// spelling that does not start with a letter.
pub open spec fn is_symbol(t: TokenView) -> bool {
    spelling(t).len() > 0 && !is_alpha(spelling(t)[0])
}

/// The longest token wins: a token never stops short of an operator or
/// punctuation spelling that the source holds where the token starts
/// (`<=` is one `RelOpLe`, never `<` then `=`; `*>>` is one high
/// multiplication). Where such a spelling starts the next token, that token
/// is not an error, except for a `-` that opens an integer literal.
pub proof fn lemma_longest_match(s: Seq<u8>, i: int)
    requires
        0 <= i <= s.len(),
    ensures
        next_step(s, i) matches Some(LexStep::Token { lo, tok, hi }) ==> forall|t: TokenView|
            #![trigger spells_at(s, lo, spelling(t))]
            is_symbol(t) && spells_at(s, lo, spelling(t)) ==> spelling(t).len() <= hi - lo,
        forall|t: TokenView| #![trigger spells_at(s, skip_trivia(s, i), spelling(t))]
            is_symbol(t) && spells_at(s, skip_trivia(s, i), spelling(t))
            && !(s[skip_trivia(s, i)] == 45 && is_digit(byte_at(s, skip_trivia(s, i) + 1)))
            ==> next_step(s, i) matches Some(LexStep::Token { .. }),
{
    lemma_skip_trivia_bounds(s, i);
    let j = skip_trivia(s, i);
    if j < s.len() {
        lemma_scan_at_bounds(s, j);
        assert forall|t: TokenView| #![trigger spells_at(s, j, spelling(t))]
            is_symbol(t) && spells_at(s, j, spelling(t)) implies
            (scan_at(s, j) matches LexStep::Token { hi, .. } && spelling(t).len() <= hi - j)
            || (s[j] == 45 && is_digit(byte_at(s, j + 1)) && scan_at(s, j) matches LexStep::Error { .. }) by {
            let w = spelling(t);
            assert(s[j] == w[0]) by {
                assert(s.subrange(j, j + w.len())[0] == s[j]);
            }
            if w.len() >= 2 {
                assert(s[j + 1] == w[1]) by {
                    assert(s.subrange(j, j + w.len())[1] == s[j + 1]);
                }
            }
            if w.len() >= 3 {
                assert(s[j + 2] == w[2]) by {
                    assert(s.subrange(j, j + w.len())[2] == s[j + 2]);
                }
            }
        }
    }
}

/// Reserved words win over identifiers: no identifier is spelled like a
/// keyword, `true` or `false`, and the words `true` and `false` are the
/// boolean literals.
pub proof fn lemma_reserved_words(s: Seq<u8>, i: int)
    requires
        0 <= i <= s.len(),
    ensures
        next_step(s, i) matches Some(LexStep::Token { lo, tok: TokenView::Identifier(_), hi }) ==> {
            &&& forall|t: TokenView| spelling(t).len() > 0 ==> s.subrange(lo, hi) != #[trigger] spelling(t)
            &&& s.subrange(lo, hi) != seq![116u8, 114, 117, 101]
            &&& s.subrange(lo, hi) != seq![102u8, 97, 108, 115, 101]
        },
        next_step(s, i) matches Some(LexStep::Token { lo, tok, hi }) ==> (s.subrange(lo, hi) == seq![116u8, 114, 117, 101]
            ==> tok == TokenView::BoolLiteral(true)),
        next_step(s, i) matches Some(LexStep::Token { lo, tok, hi }) ==> (s.subrange(lo, hi) == seq![102u8, 97, 108, 115, 101]
            ==> tok == TokenView::BoolLiteral(false)),
{
    lemma_skip_trivia_bounds(s, i);
    let j = skip_trivia(s, i);
    if j < s.len() {
        lemma_scan_at_bounds(s, j);
        if let LexStep::Token { lo, tok, hi } = scan_at(s, j) {
            let w = s.subrange(lo, hi);
            if w.len() > 0 && w[0] == s[j] && !is_alpha(s[j]) {
                assert(w[0] == s.subrange(lo, hi)[0]);
            }
            if w == seq![116u8, 114, 117, 101] || w == seq![102u8, 97, 108, 115, 101] {
                assert(w[0] == s[j]);
            }
            if tok is Identifier {
                assert(is_alpha(s[j]));
                assert(w[0] == s[j]);
                assert forall|t: TokenView| spelling(t).len() > 0 implies w != #[trigger] spelling(t) by {
                    if w == spelling(t) {
                        assert(spelling(t)[0] == s[j]);
                    }
                }
            }
        }
    }
}

proof fn lemma_ident_run(s: Seq<u8>, i: int)
    requires
        0 <= i <= s.len(),
    ensures
        forall|k: int| i <= k < ident_end(s, i) ==> is_ident_continue(#[trigger] s[k]),
        ident_end(s, i) < s.len() ==> !is_ident_continue(s[ident_end(s, i)]),
    decreases s.len() - i,
{
    if i < s.len() && is_ident_continue(s[i]) {
        lemma_ident_run(s, i + 1);
    }
}

/// A word (a keyword, a boolean literal or an identifier) takes every
/// identifier character that follows its first letter: it is made of
/// identifier characters and is not followed by one.
pub proof fn lemma_words_are_maximal(s: Seq<u8>, i: int)
    requires
        0 <= i <= s.len(),
    ensures
        next_step(s, i) matches Some(LexStep::Token { lo, tok, hi }) ==> (is_alpha(s[lo]) ==> {
            &&& forall|k: int| lo <= k < hi ==> is_ident_continue(#[trigger] s[k])
            &&& hi < s.len() ==> !is_ident_continue(s[hi])
        }),
{
    lemma_skip_trivia_bounds(s, i);
    let j = skip_trivia(s, i);
    if j < s.len() && is_alpha(s[j]) {
        lemma_ident_run(s, j + 1);
        lemma_ident_end_bounds(s, j + 1);
    }
}

/// The lexical errors of `s` from position `i` on, in order: lexing goes
/// on after an error, from where the error ends.
pub open spec fn lexical_errors(s: Seq<u8>, i: int) -> Seq<LexError>
    decreases s.len() - i,
{
    if !(0 <= i <= s.len()) {
        seq![]
    } else {
        match next_step(s, i) {
            None => seq![],
            Some(LexStep::Token { hi, .. }) => {
                proof { lemma_step_moves_forward(s, i); }
                lexical_errors(s, hi)
            },
            Some(LexStep::Error { err, resume }) => {
                proof { lemma_step_moves_forward(s, i); }
                seq![err] + lexical_errors(s, resume)
            },
        }
    }
}

/// `ds` reports the errors `errs` one by one, in a file placed at `base`.
pub open spec fn reports_each(ds: Seq<Diagnostic>, errs: Seq<LexError>, base: int) -> bool {
    &&& ds.len() == errs.len()
    &&& forall|k: int| 0 <= k < ds.len() ==> reports(#[trigger] ds[k], errs[k], base)
}

} // verus!
