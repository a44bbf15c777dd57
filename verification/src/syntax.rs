//! Syntax errors: what the parser can report, and the diagnostics that
//! report it.

use vstd::prelude::*;
use crate::diagnostic::{Diagnostic, Level};
use crate::resolve::join_comma;
use crate::resolve::texts;
use crate::span::Span;
use crate::token::{token_display, Token};

verus! {

/// An error of the parser, located by global byte offsets: a token that
/// no rule accepts, an early end of input, a character the lexer could not
/// read, a token left over after a complete program, or a diagnostic the
/// lexer produced.
#[derive(Debug)]
pub enum SyntaxError {
    UnrecognizedToken { lo: usize, token: Token, hi: usize, expected: Vec<String> },
    UnrecognizedEof { location: usize, expected: Vec<String> },
    InvalidToken { location: usize },
    ExtraToken { lo: usize, token: Token, hi: usize },
    User { error: Diagnostic },
}

/// How the tokens a parser expected are listed.
pub open spec fn expected_text(expected: Seq<Seq<char>>) -> Seq<char> {
    if expected.len() == 0 {
        "expected nothing"@
    } else if expected.len() == 1 {
        "expected "@ + expected[0]
    } else {
        "expected one of "@ + join_comma(expected.drop_last()) + ", or "@ + expected.last()
    }
}

/// Lists the tokens a parser expected: `expected nothing`, `expected a`,
/// or `expected one of a, b, or c`.
pub fn format_expected(expected: &Vec<String>) -> (s: String)
    ensures
        s@ == expected_text(texts(expected@)),
{
    let ghost es = texts(expected@);
    if expected.len() == 0 {
        String::from_str("expected nothing")
    } else if expected.len() == 1 {
        let mut s = String::from_str("expected ");
        s.append(expected[0].as_str());
        s
    } else {
        let mut s = String::from_str("expected one of ");
        let ghost start = s@;
        let n = expected.len() - 1;
        let mut i: usize = 0;
        while i < n
            invariant
                n == expected@.len() - 1,
                i <= n,
                es == texts(expected@),
                s@ == start + join_comma(es.subrange(0, i as int)),
            decreases n - i,
        {
            if i > 0 {
                s.append(", ");
            }
            s.append(expected[i].as_str());
            proof {
                let sub = es.subrange(0, i + 1);
                assert(sub.drop_last() =~= es.subrange(0, i as int));
                if i == 0 {
                    assert(join_comma(es.subrange(0, 0)) =~= Seq::<char>::empty());
                }
            }
            i = i + 1;
            assert(s@ =~= start + join_comma(es.subrange(0, i as int)));
        }
        s.append(", or ");
        s.append(expected[n].as_str());
        assert(es.drop_last() =~= es.subrange(0, n as int));
        s
    }
}

/// The span from `lo` to `hi`.
pub open spec fn span_of(lo: usize, hi: usize) -> Span {
    Span { lo: lo as u32, hi: hi as u32 }
}

/// `d` is the diagnostic that reports `err`.
pub open spec fn reports_syntax(d: Diagnostic, err: SyntaxError) -> bool {
    match err {
        SyntaxError::User { error } => d == error,
        SyntaxError::UnrecognizedToken { lo, token, hi, expected } => {
            &&& d.level == Level::Error
            &&& d.loc == Some(span_of(lo, hi))
            &&& d.message@ == "Unexpected token "@ + token_display(token@)
            &&& d.labels@.len() == 1
            &&& d.labels@[0].0 == span_of(lo, hi)
            &&& d.labels@[0].1@ == expected_text(texts(expected@))
        },
        SyntaxError::UnrecognizedEof { location, expected } => {
            &&& d.level == Level::Error
            &&& d.loc == Some(span_of(location, location))
            &&& d.message@ == "Unexpected end of file"@
            &&& d.labels@.len() == 1
            &&& d.labels@[0].0 == span_of(location, location)
            &&& d.labels@[0].1@ == expected_text(texts(expected@))
        },
        SyntaxError::ExtraToken { lo, token, hi } => {
            &&& d.level == Level::Error
            &&& d.loc == Some(span_of(lo, hi))
            &&& d.message@ == "Extra token "@ + token_display(token@) + " after program"@
            &&& d.labels@.len() == 1
            &&& d.labels@[0].0 == span_of(lo, hi)
            &&& d.labels@[0].1@ == "unexpected"@
        },
        SyntaxError::InvalidToken { .. } => false,
    }
}

/// Whether `err` can be reported: its offsets fit the global source space
/// and its tokens came from the lexer (their literals hold Unicode scalar
/// values). The lexer never hands the parser an unreadable character, so
/// `InvalidToken` cannot occur.
pub open spec fn reportable(err: SyntaxError) -> bool {
    match err {
        SyntaxError::UnrecognizedToken { lo, token, hi, .. } => lo <= hi <= u32::MAX && token@.well_formed(),
        SyntaxError::UnrecognizedEof { location, .. } => location <= u32::MAX,
        SyntaxError::ExtraToken { lo, token, hi } => lo <= hi <= u32::MAX && token@.well_formed(),
        SyntaxError::User { .. } => true,
        SyntaxError::InvalidToken { .. } => false,
    }
}

/// The diagnostic that reports a syntax error.
pub fn to_diag(err: SyntaxError) -> (d: Diagnostic)
    requires
        reportable(err),
    ensures
        reports_syntax(d, err),
{
    match err {
        SyntaxError::User { error } => error,
        SyntaxError::UnrecognizedToken { lo, token, hi, expected } => {
            let mut m = String::from_str("Unexpected token ");
            let shown = token.to_display_string();
            m.append(shown.as_str());
            let label = format_expected(&expected);
            Diagnostic::error(Span { lo: lo as u32, hi: hi as u32 }, m).with_primary_label(label)
        }
        SyntaxError::UnrecognizedEof { location, expected } => {
            let label = format_expected(&expected);
            Diagnostic::error(Span { lo: location as u32, hi: location as u32 }, String::from_str("Unexpected end of file"))
                .with_primary_label(label)
        }
        SyntaxError::ExtraToken { lo, token, hi } => {
            let mut m = String::from_str("Extra token ");
            let shown = token.to_display_string();
            m.append(shown.as_str());
            m.append(" after program");
            Diagnostic::error(Span { lo: lo as u32, hi: hi as u32 }, m).with_primary_label(String::from_str("unexpected"))
        }
        SyntaxError::InvalidToken { .. } => {
            // excluded by `reportable`
            assert(false);
            Diagnostic::error_no_span(String::new())
        }
    }
}

/// A parser error as the interactive error handler prints it: every token
/// already in its displayed form, and an error of the lexer as its text.
#[derive(Debug)]
pub enum ShownSyntaxError {
    UnrecognizedToken { lo: usize, token: String, hi: usize, expected: Vec<String> },
    UnrecognizedEof { location: usize, expected: Vec<String> },
    InvalidToken { location: usize },
    ExtraToken { lo: usize, token: String, hi: usize },
    User { error: String },
}

/// `shown` is `err` with each token displayed and the lexer's diagnostic
/// given by its message.
pub open spec fn shows(err: SyntaxError, shown: ShownSyntaxError) -> bool {
    match err {
        SyntaxError::UnrecognizedToken { lo, token, hi, expected } => shown matches ShownSyntaxError::UnrecognizedToken {
            lo: l, token: t, hi: h, expected: e } && l == lo && h == hi && t@ == token_display(token@) && e@ == expected@,
        SyntaxError::UnrecognizedEof { location, expected } => shown matches ShownSyntaxError::UnrecognizedEof {
            location: l, expected: e } && l == location && e@ == expected@,
        SyntaxError::InvalidToken { location } => shown == ShownSyntaxError::InvalidToken { location },
        SyntaxError::ExtraToken { lo, token, hi } => shown matches ShownSyntaxError::ExtraToken { lo: l, token: t, hi: h }
            && l == lo && h == hi && t@ == token_display(token@),
        SyntaxError::User { error } => shown matches ShownSyntaxError::User { error: m } && m@ == error.message@,
    }
}

/// Whether the tokens of `err` came from the lexer, so that they can be
/// displayed.
pub open spec fn displayable(err: SyntaxError) -> bool {
    match err {
        SyntaxError::UnrecognizedToken { token, .. } => token@.well_formed(),
        SyntaxError::ExtraToken { token, .. } => token@.well_formed(),
        _ => true,
    }
}

impl SyntaxError {
    /// The error as the interactive handler prints it: each token displayed
    /// (see [`Token::to_display_string`]), a lexer diagnostic by its message.
    pub fn shown(self) -> (s: ShownSyntaxError)
        requires
            displayable(self),
        ensures
            shows(self, s),
    {
        match self {
            SyntaxError::UnrecognizedToken { lo, token, hi, expected } =>
                ShownSyntaxError::UnrecognizedToken { lo, token: token.to_display_string(), hi, expected },
            SyntaxError::UnrecognizedEof { location, expected } => ShownSyntaxError::UnrecognizedEof { location, expected },
            SyntaxError::InvalidToken { location } => ShownSyntaxError::InvalidToken { location },
            SyntaxError::ExtraToken { lo, token, hi } =>
                ShownSyntaxError::ExtraToken { lo, token: token.to_display_string(), hi },
            SyntaxError::User { error } => ShownSyntaxError::User { error: error.message },
        }
    }
}

/// `d` is the report of `err` in the wording of the interactive error
/// handler: the offending token, what was expected (`Expected one of: a,
/// b`), and a label on the offending text.
pub open spec fn reports_interactively(d: Diagnostic, err: ShownSyntaxError) -> bool {
    &&& d.level == Level::Error
    &&& match err {
        ShownSyntaxError::UnrecognizedToken { lo, token, hi, expected } => {
            &&& d.loc == Some(span_of(lo, hi))
            &&& d.message@ == "Unrecognized token: "@ + token@
            &&& d.labels@.len() == 1
            &&& d.labels@[0].0 == span_of(lo, hi)
            &&& d.labels@[0].1@ == "Unexpected token"@
            &&& d.note matches Some(n) && n@ == "Expected one of: "@ + join_comma(texts(expected@))
        },
        ShownSyntaxError::UnrecognizedEof { location, expected } => {
            &&& d.loc == Some(span_of(location, location))
            &&& d.message@ == "Unexpected end of file"@
            &&& d.labels@.len() == 1
            &&& d.labels@[0].0 == span_of(location, location)
            &&& d.labels@[0].1@ == "Expected more code here"@
            &&& d.note matches Some(n) && n@ == "Expected one of: "@ + join_comma(texts(expected@))
        },
        ShownSyntaxError::InvalidToken { location } => {
            &&& d.loc == Some(span_of(location, (location + 1) as usize))
            &&& d.message@ == "Invalid token"@
            &&& d.labels@.len() == 1
            &&& d.labels@[0].0 == span_of(location, (location + 1) as usize)
            &&& d.labels@[0].1@ == "Failed to recognize this character"@
            &&& d.note is None
        },
        ShownSyntaxError::ExtraToken { lo, token, hi } => {
            &&& d.loc == Some(span_of(lo, hi))
            &&& d.message@ == "Extra token: "@ + token@
            &&& d.labels@.len() == 1
            &&& d.labels@[0].0 == span_of(lo, hi)
            &&& d.labels@[0].1@ == "Parser finished before this"@
            &&& d.note is None
        },
        ShownSyntaxError::User { error } => {
            &&& d.loc is None
            &&& d.message@ == "User error: "@ + error@
            &&& d.labels@.len() == 0
            &&& d.note is None
        },
    }
}

/// Whether `err` can be reported interactively: its offsets fit the global
/// source space.
pub open spec fn interactively_reportable(err: ShownSyntaxError) -> bool {
    match err {
        ShownSyntaxError::UnrecognizedToken { lo, hi, .. } => lo <= hi <= u32::MAX,
        ShownSyntaxError::UnrecognizedEof { location, .. } => location <= u32::MAX,
        ShownSyntaxError::ExtraToken { lo, hi, .. } => lo <= hi <= u32::MAX,
        ShownSyntaxError::InvalidToken { location } => location < u32::MAX,
        ShownSyntaxError::User { .. } => true,
    }
}

fn join_expected(expected: &Vec<String>) -> (s: String)
    ensures
        s@ == join_comma(texts(expected@)),
{
    let ghost es = texts(expected@);
    let mut s = String::new();
    let mut i: usize = 0;
    while i < expected.len()
        invariant
            i <= expected@.len(),
            es == texts(expected@),
            s@ == join_comma(es.subrange(0, i as int)),
        decreases expected.len() - i,
    {
        if i > 0 {
            s.append(", ");
        }
        s.append(expected[i].as_str());
        proof {
            let sub = es.subrange(0, i + 1);
            assert(sub.drop_last() =~= es.subrange(0, i as int));
            if i == 0 {
                assert(join_comma(es.subrange(0, 0)) =~= Seq::<char>::empty());
            }
        }
        i = i + 1;
        assert(s@ =~= join_comma(es.subrange(0, i as int)));
    }
    assert(es.subrange(0, expected@.len() as int) =~= es);
    s
}

/// Reports a syntax error the way the interactive error handler words it;
/// tokens are shown as the caller displayed them.
pub fn lexical_error(err: ShownSyntaxError) -> (d: Diagnostic)
    requires
        interactively_reportable(err),
    ensures
        reports_interactively(d, err),
{
    match err {
        ShownSyntaxError::UnrecognizedToken { lo, token, hi, expected } => {
            let mut m = String::from_str("Unrecognized token: ");
            m.append(token.as_str());
            let mut note = String::from_str("Expected one of: ");
            let list = join_expected(&expected);
            note.append(list.as_str());
            let span = Span { lo: lo as u32, hi: hi as u32 };
            Diagnostic::error(span, m).with_primary_label(String::from_str("Unexpected token")).with_note(note)
        }
        ShownSyntaxError::UnrecognizedEof { location, expected } => {
            let mut note = String::from_str("Expected one of: ");
            let list = join_expected(&expected);
            note.append(list.as_str());
            let span = Span { lo: location as u32, hi: location as u32 };
            Diagnostic::error(span, String::from_str("Unexpected end of file"))
                .with_primary_label(String::from_str("Expected more code here"))
                .with_note(note)
        }
        ShownSyntaxError::InvalidToken { location } => {
            let span = Span { lo: location as u32, hi: (location + 1) as u32 };
            Diagnostic::error(span, String::from_str("Invalid token"))
                .with_primary_label(String::from_str("Failed to recognize this character"))
        }
        ShownSyntaxError::ExtraToken { lo, token, hi } => {
            let mut m = String::from_str("Extra token: ");
            m.append(token.as_str());
            let span = Span { lo: lo as u32, hi: hi as u32 };
            Diagnostic::error(span, m).with_primary_label(String::from_str("Parser finished before this"))
        }
        ShownSyntaxError::User { error } => {
            let mut m = String::from_str("User error: ");
            m.append(error.as_str());
            Diagnostic::error_no_span(m)
        }
    }
}

} // verus!
