//! The `--lex` diagnostic output: one line per token, `<line>:<column>
//! <token>`, and, at the first lexical error, a last line `<line>:<column>
//! error:<description>`. Lines and columns count from 1; columns count
//! bytes.

use vstd::prelude::*;
use vstd::string::StringSliceAdditionalSpecFns;
use crate::lexer::{lemma_step_moves_forward, lemma_tokens_well_formed, next_step, LexStep, Lexer};
use crate::source_map::{byte_len, byte_line_col, lemma_line_col_bounded, line_and_column};
use crate::text::{chars_to_string, decimal, push_digits, push_str};
use crate::token::{token_display, TokenView};

verus! {

/// `<line>:<column>` of the byte at `offset` of `text`, counting from 1.
pub open spec fn position_text(text: Seq<char>, offset: int) -> Seq<char> {
    decimal(byte_line_col(text, offset as nat).0 + 1) + seq![':'] + decimal(byte_line_col(text, offset as nat).1 + 1)
}

/// The log line of a token that starts at `lo`.
pub open spec fn token_line(text: Seq<char>, lo: int, tok: TokenView) -> Seq<char> {
    position_text(text, lo) + seq![' '] + token_display(tok) + seq!['\n']
}

/// The log line of an error that starts at `lo`.
pub open spec fn error_line(text: Seq<char>, lo: int, message: Seq<char>) -> Seq<char> {
    position_text(text, lo) + " error:"@ + message + seq!['\n']
}

/// The `--lex` log of `text` (whose UTF-8 bytes are `s`) from byte `i` on:
/// a line per token, ending after the first error, if any.
pub open spec fn lex_log_from(text: Seq<char>, s: Seq<u8>, i: int) -> Seq<char>
    decreases s.len() - i,
{
    if !(0 <= i <= s.len()) {
        seq![]
    } else {
        match next_step(s, i) {
            None => seq![],
            Some(LexStep::Token { lo, tok, hi }) => {
                proof { lemma_step_moves_forward(s, i); }
                token_line(text, lo, tok) + lex_log_from(text, s, hi)
            },
            Some(LexStep::Error { err, .. }) => error_line(text, err.lo(), err.message()),
        }
    }
}

/// Appends `<line>:<column>` for the byte at `offset` of `text`.
fn push_position(out: &mut Vec<char>, text: &str, offset: usize)
    requires
        offset <= byte_len(text@),
        offset < usize::MAX,
    ensures
        final(out)@ == old(out)@ + position_text(text@, offset as int),
{
    let (line, col) = line_and_column(text, offset);
    proof { lemma_line_col_bounded(text@, text@.len(), offset as nat); }
    push_digits(out, (line as u64) + 1, 10, false);
    out.push(':');
    push_digits(out, (col as u64) + 1, 10, false);
    assert(final(out)@ =~= old(out)@ + position_text(text@, offset as int));
}

/// The `--lex` log of a source text.
pub fn lex_log(text: &str) -> (log: String)
    requires
        text.spec_bytes().len() < u32::MAX,
    ensures
        log@ == lex_log_from(text@, text.spec_bytes(), 0),
{
    let ghost s = text.spec_bytes();
    let ghost whole = lex_log_from(text@, s, 0);
    let mut lexer = Lexer::new(0, text);
    let mut out: Vec<char> = Vec::new();
    loop
        invariant_except_break
            lexer.source() == s,
            lexer.base() == 0,
            0 <= lexer.position() <= s.len(),
            out@ + lex_log_from(text@, s, lexer.position()) == whole,
            s == text.spec_bytes(),
            byte_len(text@) == s.len(),
            s.len() < u32::MAX,
        ensures
            out@ == whole,
        decreases s.len() - lexer.position(),
    {
        let ghost i = lexer.position();
        proof {
            lemma_step_moves_forward(s, i);
            lemma_tokens_well_formed(s, i);
        }
        match lexer.next() {
            None => {
                assert(out@ + Seq::<char>::empty() =~= out@);
                break;
            }
            Some(Ok((lo, tok, _hi))) => {
                let ghost before = out@;
                push_position(&mut out, text, lo);
                out.push(' ');
                let shown = tok.to_display_string();
                push_str(&mut out, shown.as_str());
                out.push('\n');
                assert(out@ =~= before + token_line(text@, lo as int, tok@));
            }
            Some(Err(d)) => {
                let ghost before = out@;
                let ghost err = next_step(s, i).unwrap()->err;
                assert(d.loc == Some(crate::lexer::global_span(0, err.lo(), err.hi())));
                assert(d.message@ == err.message());
                assert(0 <= err.lo() <= s.len());
                let lo = match d.loc {
                    Some(span) => span.lo as usize,
                    None => 0,
                };
                assert(lo as int == err.lo());
                push_position(&mut out, text, lo);
                push_str(&mut out, " error:");
                push_str(&mut out, d.message.as_str());
                out.push('\n');
                proof {
                    reveal_strlit(" error:");
                }
                assert(out@ =~= before + lex_log_from(text@, s, i));
                break;
            }
        }
    }
    chars_to_string(&out)
}

/// A log line for an error at byte `offset` of `text`: `<line>:<column>
/// error:<message>`.
pub fn log_error_line(text: &str, offset: usize, message: &str) -> (line: String)
    requires
        offset <= byte_len(text@),
        offset < usize::MAX,
    ensures
        line@ == error_line(text@, offset as int, message@),
{
    let mut out: Vec<char> = Vec::new();
    push_position(&mut out, text, offset);
    push_str(&mut out, " error:");
    push_str(&mut out, message);
    out.push('\n');
    proof {
        reveal_strlit(" error:");
    }
    assert(out@ =~= error_line(text@, offset as int, message@));
    chars_to_string(&out)
}

} // verus!
