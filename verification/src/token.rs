//! Tokens of the Eta language and their textual rendering.

use vstd::prelude::*;
use crate::text::{chars_to_string, digits, push_all, push_digits, push_signed_decimal, signed_decimal};

verus! {

/// A lexical token.
#[derive(Clone, Debug)]
pub enum Token {
    KeywordUse,
    KeywordLength,
    KeywordWhile,
    KeywordIf,
    KeywordElse,
    KeywordReturn,
    KeywordInt,
    KeywordBool,
    SemiColon,
    Discard,
    OfType,
    Assign,
    Comma,
    BoolLiteral(bool),
    /// A Unicode scalar value.
    CharLiteral(u32),
    StrLiteral(String),
    Identifier(String),
    Integer(i64),
    LParen,
    RParen,
    LBracket,
    RBracket,
    BlockOpen,
    BlockClose,
    OperatorMul,
    OperatorHighMul,
    OperatorDiv,
    OperatorMod,
    OperatorNot,
    Minus,
    OperatorAdd,
    RelOpEq,
    RelOpNeq,
    RelOpGr,
    RelOpGe,
    RelOpLt,
    RelOpLe,
    Land,
    Lor,
}

/// Mathematical view of a [`Token`]: string payloads become character or
/// code-point sequences.
pub enum TokenView {
    KeywordUse,
    KeywordLength,
    KeywordWhile,
    KeywordIf,
    KeywordElse,
    KeywordReturn,
    KeywordInt,
    KeywordBool,
    SemiColon,
    Discard,
    OfType,
    Assign,
    Comma,
    BoolLiteral(bool),
    CharLiteral(u32),
    StrLiteral(Seq<u32>),
    Identifier(Seq<char>),
    Integer(i64),
    LParen,
    RParen,
    LBracket,
    RBracket,
    BlockOpen,
    BlockClose,
    OperatorMul,
    OperatorHighMul,
    OperatorDiv,
    OperatorMod,
    OperatorNot,
    Minus,
    OperatorAdd,
    RelOpEq,
    RelOpNeq,
    RelOpGr,
    RelOpGe,
    RelOpLt,
    RelOpLe,
    Land,
    Lor,
}

/// Code points of a character sequence.
pub open spec fn code_points(s: Seq<char>) -> Seq<u32> {
    s.map_values(|c: char| c as u32)
}

impl View for Token {
    type V = TokenView;

    open spec fn view(&self) -> TokenView {
        match self {
            Token::KeywordUse => TokenView::KeywordUse,
            Token::KeywordLength => TokenView::KeywordLength,
            Token::KeywordWhile => TokenView::KeywordWhile,
            Token::KeywordIf => TokenView::KeywordIf,
            Token::KeywordElse => TokenView::KeywordElse,
            Token::KeywordReturn => TokenView::KeywordReturn,
            Token::KeywordInt => TokenView::KeywordInt,
            Token::KeywordBool => TokenView::KeywordBool,
            Token::SemiColon => TokenView::SemiColon,
            Token::Discard => TokenView::Discard,
            Token::OfType => TokenView::OfType,
            Token::Assign => TokenView::Assign,
            Token::Comma => TokenView::Comma,
            Token::BoolLiteral(b) => TokenView::BoolLiteral(*b),
            Token::CharLiteral(c) => TokenView::CharLiteral(*c),
            Token::StrLiteral(s) => TokenView::StrLiteral(code_points(s@)),
            Token::Identifier(s) => TokenView::Identifier(s@),
            Token::Integer(n) => TokenView::Integer(*n),
            Token::LParen => TokenView::LParen,
            Token::RParen => TokenView::RParen,
            Token::LBracket => TokenView::LBracket,
            Token::RBracket => TokenView::RBracket,
            Token::BlockOpen => TokenView::BlockOpen,
            Token::BlockClose => TokenView::BlockClose,
            Token::OperatorMul => TokenView::OperatorMul,
            Token::OperatorHighMul => TokenView::OperatorHighMul,
            Token::OperatorDiv => TokenView::OperatorDiv,
            Token::OperatorMod => TokenView::OperatorMod,
            Token::OperatorNot => TokenView::OperatorNot,
            Token::Minus => TokenView::Minus,
            Token::OperatorAdd => TokenView::OperatorAdd,
            Token::RelOpEq => TokenView::RelOpEq,
            Token::RelOpNeq => TokenView::RelOpNeq,
            Token::RelOpGr => TokenView::RelOpGr,
            Token::RelOpGe => TokenView::RelOpGe,
            Token::RelOpLt => TokenView::RelOpLt,
            Token::RelOpLe => TokenView::RelOpLe,
            Token::Land => TokenView::Land,
            Token::Lor => TokenView::Lor,
        }
    }
}

/// The code point of a character.
pub open spec fn code_point(c: char) -> u32 {
    c as u32
}

/// The character whose code point is `v` (meaningful when `v` is a scalar value).
pub open spec fn char_of(v: u32) -> char {
    choose|c: char| #[trigger] code_point(c) == v
}

/// A Unicode scalar value: at most U+10FFFF and not a surrogate half.
pub open spec fn is_scalar(v: u32) -> bool {
    v <= 0x10FFFF && !(0xD800 <= v <= 0xDFFF)
}

/// The source spelling of a token that has exactly one, as ASCII bytes;
/// empty for tokens that carry a payload.
pub open spec fn spelling(t: TokenView) -> Seq<u8> {
    match t {
        TokenView::KeywordUse => seq![117u8, 115, 101],
        TokenView::KeywordLength => seq![108u8, 101, 110, 103, 116, 104],
        TokenView::KeywordWhile => seq![119u8, 104, 105, 108, 101],
        TokenView::KeywordIf => seq![105u8, 102],
        TokenView::KeywordElse => seq![101u8, 108, 115, 101],
        TokenView::KeywordReturn => seq![114u8, 101, 116, 117, 114, 110],
        TokenView::KeywordInt => seq![105u8, 110, 116],
        TokenView::KeywordBool => seq![98u8, 111, 111, 108],
        TokenView::SemiColon => seq![59u8],
        TokenView::Discard => seq![95u8],
        TokenView::OfType => seq![58u8],
        TokenView::Assign => seq![61u8],
        TokenView::Comma => seq![44u8],
        TokenView::LParen => seq![40u8],
        TokenView::RParen => seq![41u8],
        TokenView::LBracket => seq![91u8],
        TokenView::RBracket => seq![93u8],
        TokenView::BlockOpen => seq![123u8],
        TokenView::BlockClose => seq![125u8],
        TokenView::OperatorMul => seq![42u8],
        TokenView::OperatorHighMul => seq![42u8, 62, 62],
        TokenView::OperatorDiv => seq![47u8],
        TokenView::OperatorMod => seq![37u8],
        TokenView::OperatorNot => seq![33u8],
        TokenView::Minus => seq![45u8],
        TokenView::OperatorAdd => seq![43u8],
        TokenView::RelOpEq => seq![61u8, 61],
        TokenView::RelOpNeq => seq![33u8, 61],
        TokenView::RelOpGr => seq![62u8],
        TokenView::RelOpGe => seq![62u8, 61],
        TokenView::RelOpLt => seq![60u8],
        TokenView::RelOpLe => seq![60u8, 61],
        TokenView::Land => seq![38u8],
        TokenView::Lor => seq![124u8],
        _ => seq![],
    }
}

/// ASCII bytes read as characters.
pub open spec fn ascii_chars(b: Seq<u8>) -> Seq<char> {
    b.map_values(|x: u8| x as char)
}

/// `char::escape_default` on a code point, with the `\u{..}` form kept.
pub open spec fn escape_code_point(v: u32) -> Seq<char> {
    if v == 9 { seq!['\\', 't'] }
    else if v == 13 { seq!['\\', 'r'] }
    else if v == 10 { seq!['\\', 'n'] }
    else if v == 39 { seq!['\\', '\''] }
    else if v == 34 { seq!['\\', '"'] }
    else if v == 92 { seq!['\\', '\\'] }
    else if 0x20 <= v <= 0x7e { seq![v as char] }
    else { seq!['\\', 'u', '{'] + digits(v as nat, 16, false) + seq!['}'] }
}

/// Escapes every code point of `s` in order.
pub open spec fn escape_all(s: Seq<u32>) -> Seq<char>
    decreases s.len(),
{
    if s.len() == 0 { seq![] } else { escape_code_point(s[0]) + escape_all(s.drop_first()) }
}

/// Replaces every `\u{` by `\x{`, scanning left to right.
pub open spec fn replace_u_escape(s: Seq<char>) -> Seq<char>
    decreases s.len(),
{
    if s.len() == 0 {
        seq![]
    } else if s.len() >= 3 && s[0] == '\\' && s[1] == 'u' && s[2] == '{' {
        seq!['\\', 'x', '{'] + replace_u_escape(s.skip(3))
    } else {
        seq![s[0]] + replace_u_escape(s.drop_first())
    }
}

/// Rendering of a character or string payload: escaped, with Eta's
/// `\x{..}` spelling of Unicode escapes.
pub open spec fn render_code_points(s: Seq<u32>) -> Seq<char> {
    replace_u_escape(escape_all(s))
}

/// Whether `v` is printable ASCII that `char::escape_default` leaves as it
/// is: from the space to `~`, quotes and the backslash aside.
pub open spec fn plain_code_point(v: u32) -> bool {
    0x20 <= v <= 0x7e && v != 34 && v != 39 && v != 92
}

/// The characters of code points that are all plain ASCII.
pub open spec fn plain_chars(s: Seq<u32>) -> Seq<char> {
    s.map_values(|v: u32| v as char)
}

/// `char::escape_default` leaves printable ASCII as it is (the space
/// included) and starts every other escape with a backslash.
pub proof fn lemma_escape_plain(v: u32)
    ensures
        plain_code_point(v) ==> escape_code_point(v) == seq![v as char],
        !plain_code_point(v) ==> escape_code_point(v).len() >= 2 && escape_code_point(v)[0] == '\\',
{
}

/// Plain ASCII text renders as itself: escaping leaves it alone and no
/// `\u{` is there to respell.
pub proof fn lemma_plain_text_renders_as_itself(s: Seq<u32>)
    requires
        forall|k: int| 0 <= k < s.len() ==> plain_code_point(#[trigger] s[k]),
    ensures
        escape_all(s) == plain_chars(s),
        render_code_points(s) == plain_chars(s),
        token_display(TokenView::StrLiteral(s)) == seq!['s', 't', 'r', 'i', 'n', 'g', ' '] + plain_chars(s),
    decreases s.len(),
{
    if s.len() > 0 {
        lemma_plain_text_renders_as_itself(s.drop_first());
        lemma_escape_plain(s[0]);
        assert(plain_chars(s) =~= seq![s[0] as char] + plain_chars(s.drop_first()));
    } else {
        assert(plain_chars(s) =~= Seq::<char>::empty());
    }
    lemma_no_backslash_unchanged(plain_chars(s));
}

/// Text without a backslash has no `\u{` to respell.
proof fn lemma_no_backslash_unchanged(t: Seq<char>)
    requires
        forall|k: int| 0 <= k < t.len() ==> #[trigger] t[k] != '\\',
    ensures
        replace_u_escape(t) == t,
    decreases t.len(),
{
    if t.len() > 0 {
        lemma_no_backslash_unchanged(t.drop_first());
        assert(t =~= seq![t[0]] + t.drop_first());
    }
}

/// Human-readable rendering of a token, as used in logs and messages.
pub open spec fn token_display(t: TokenView) -> Seq<char> {
    match t {
        TokenView::BoolLiteral(b) => if b { seq!['t', 'r', 'u', 'e'] } else { seq!['f', 'a', 'l', 's', 'e'] },
        TokenView::CharLiteral(c) => seq!['c', 'h', 'a', 'r', 'a', 'c', 't', 'e', 'r', ' '] + render_code_points(seq![c]),
        TokenView::StrLiteral(s) => seq!['s', 't', 'r', 'i', 'n', 'g', ' '] + render_code_points(s),
        TokenView::Identifier(s) => seq!['i', 'd', ' '] + s,
        TokenView::Integer(n) => seq!['i', 'n', 't', 'e', 'g', 'e', 'r', ' '] + signed_decimal(n as int),
        _ => ascii_chars(spelling(t)),
    }
}

impl TokenView {
    /// Character payloads are Unicode scalar values.
    pub open spec fn well_formed(self) -> bool {
        match self {
            TokenView::CharLiteral(c) => is_scalar(c),
            TokenView::StrLiteral(s) => forall|i: int| 0 <= i < s.len() ==> is_scalar(#[trigger] s[i]),
            _ => true,
        }
    }
}

fn push_ascii(out: &mut Vec<char>, bytes: &Vec<u8>)
    requires
        forall|i: int| 0 <= i < bytes@.len() ==> bytes@[i] < 128,
    ensures
        final(out)@ == old(out)@ + ascii_chars(bytes@),
{
    let mut i: usize = 0;
    while i < bytes.len()
        invariant
            i <= bytes.len(),
            forall|k: int| 0 <= k < bytes@.len() ==> bytes@[k] < 128,
            out@ == old(out)@ + ascii_chars(bytes@.subrange(0, i as int)),
        decreases bytes.len() - i,
    {
        let b = bytes[i];
        out.push(b as char);
        i = i + 1;
        assert(ascii_chars(bytes@.subrange(0, i as int)) =~= ascii_chars(bytes@.subrange(0, i - 1)).push(b as char));
    }
    assert(bytes@.subrange(0, bytes.len() as int) =~= bytes@);
}

/// Appends the escaped rendering of one code point.
fn push_escaped(out: &mut Vec<char>, v: u32)
    ensures
        final(out)@ == old(out)@ + escape_code_point(v),
{
    if v == 9 {
        out.push('\\'); out.push('t');
    } else if v == 13 {
        out.push('\\'); out.push('r');
    } else if v == 10 {
        out.push('\\'); out.push('n');
    } else if v == 39 {
        out.push('\\'); out.push('\'');
    } else if v == 34 {
        out.push('\\'); out.push('"');
    } else if v == 92 {
        out.push('\\'); out.push('\\');
    } else if 0x20 <= v && v <= 0x7e {
        let b = v as u8;
        out.push(b as char);
        assert(b as char == v as char);
    } else {
        out.push('\\'); out.push('u'); out.push('{');
        push_digits(out, v as u64, 16, false);
        out.push('}');
    }
    assert(final(out)@ =~= old(out)@ + escape_code_point(v));
}

proof fn lemma_escape_all_push(s: Seq<u32>, v: u32)
    ensures
        escape_all(s.push(v)) == escape_all(s) + escape_code_point(v),
    decreases s.len(),
{
    if s.len() == 0 {
        assert(s.push(v).drop_first() =~= s);
        reveal_with_fuel(escape_all, 2);
        assert(escape_all(s.push(v)) =~= escape_code_point(v));
    } else {
        lemma_escape_all_push(s.drop_first(), v);
        assert(s.push(v).drop_first() =~= s.drop_first().push(v));
        assert(escape_all(s.push(v)) =~= escape_all(s) + escape_code_point(v));
    }
}

/// Escapes `vals` and spells Unicode escapes the Eta way.
fn render(vals: &Vec<u32>) -> (out: Vec<char>)
    ensures
        out@ == render_code_points(vals@),
{
    let mut esc: Vec<char> = Vec::new();
    let mut i: usize = 0;
    while i < vals.len()
        invariant
            i <= vals.len(),
            esc@ == escape_all(vals@.subrange(0, i as int)),
        decreases vals.len() - i,
    {
        proof { lemma_escape_all_push(vals@.subrange(0, i as int), vals@[i as int]); }
        push_escaped(&mut esc, vals[i]);
        assert(vals@.subrange(0, i + 1) =~= vals@.subrange(0, i as int).push(vals@[i as int]));
        i = i + 1;
    }
    assert(vals@.subrange(0, vals.len() as int) =~= vals@);
    let mut out: Vec<char> = Vec::new();
    let mut j: usize = 0;
    assert(esc@.skip(0) =~= esc@);
    while j < esc.len()
        invariant
            j <= esc.len(),
            out@ + replace_u_escape(esc@.skip(j as int)) == replace_u_escape(esc@),
        decreases esc.len() - j,
    {
        let ghost rest = esc@.skip(j as int);
        if esc.len() - j > 2 && esc[j] == '\\' && esc[j + 1] == 'u' && esc[j + 2] == '{' {
            assert(rest.skip(3) =~= esc@.skip(j + 3));
            out.push('\\');
            out.push('x');
            out.push('{');
            j = j + 3;
            assert(out@ + replace_u_escape(esc@.skip(j as int)) =~= replace_u_escape(esc@));
        } else {
            assert(rest.drop_first() =~= esc@.skip(j + 1));
            out.push(esc[j]);
            j = j + 1;
            assert(out@ + replace_u_escape(esc@.skip(j as int)) =~= replace_u_escape(esc@));
        }
    }
    assert(esc@.skip(esc.len() as int) =~= Seq::<char>::empty());
    assert(out@ + Seq::<char>::empty() =~= out@);
    out
}

impl Token {
    /// Whether the token is well formed: a character literal holds a
    /// Unicode scalar value (string literals always do).
    pub fn is_well_formed(&self) -> (b: bool)
        ensures
            b == self@.well_formed(),
    {
        match self {
            Token::CharLiteral(c) => *c <= 0x10FFFF && !(0xD800 <= *c && *c <= 0xDFFF),
            Token::StrLiteral(s) => {
                proof {
                    assert forall|i: int| 0 <= i < code_points(s@).len() implies is_scalar(#[trigger] code_points(s@)[i]) by {
                        let c = s@[i];
                        assert(code_points(s@)[i] == c as u32);
                        vstd::utf8::char_is_scalar(c);
                    }
                }
                true
            }
            _ => true,
        }
    }

    /// The source spelling of a token without payload (empty otherwise).
    pub fn spelling(&self) -> (b: Vec<u8>)
        ensures
            b@ == spelling(self@),
    {
        match self {
            Token::KeywordUse => vec![117u8, 115, 101],
            Token::KeywordLength => vec![108u8, 101, 110, 103, 116, 104],
            Token::KeywordWhile => vec![119u8, 104, 105, 108, 101],
            Token::KeywordIf => vec![105u8, 102],
            Token::KeywordElse => vec![101u8, 108, 115, 101],
            Token::KeywordReturn => vec![114u8, 101, 116, 117, 114, 110],
            Token::KeywordInt => vec![105u8, 110, 116],
            Token::KeywordBool => vec![98u8, 111, 111, 108],
            Token::SemiColon => vec![59u8],
            Token::Discard => vec![95u8],
            Token::OfType => vec![58u8],
            Token::Assign => vec![61u8],
            Token::Comma => vec![44u8],
            Token::LParen => vec![40u8],
            Token::RParen => vec![41u8],
            Token::LBracket => vec![91u8],
            Token::RBracket => vec![93u8],
            Token::BlockOpen => vec![123u8],
            Token::BlockClose => vec![125u8],
            Token::OperatorMul => vec![42u8],
            Token::OperatorHighMul => vec![42u8, 62, 62],
            Token::OperatorDiv => vec![47u8],
            Token::OperatorMod => vec![37u8],
            Token::OperatorNot => vec![33u8],
            Token::Minus => vec![45u8],
            Token::OperatorAdd => vec![43u8],
            Token::RelOpEq => vec![61u8, 61],
            Token::RelOpNeq => vec![33u8, 61],
            Token::RelOpGr => vec![62u8],
            Token::RelOpGe => vec![62u8, 61],
            Token::RelOpLt => vec![60u8],
            Token::RelOpLe => vec![60u8, 61],
            Token::Land => vec![38u8],
            Token::Lor => vec![124u8],
            _ => Vec::new(),
        }
    }

    /// Human-readable rendering of the token, as written to `--lex` logs
    /// and used in parse error messages.
    pub fn to_display_string(&self) -> (s: String)
        requires
            self@.well_formed(),
        ensures
            s@ == token_display(self@),
    {
        let mut out: Vec<char> = Vec::new();
        match self {
            Token::BoolLiteral(b) => {
                if *b {
                    out.push('t'); out.push('r'); out.push('u'); out.push('e');
                } else {
                    out.push('f'); out.push('a'); out.push('l'); out.push('s'); out.push('e');
                }
            }
            Token::CharLiteral(c) => {
                out.push('c'); out.push('h'); out.push('a'); out.push('r'); out.push('a');
                out.push('c'); out.push('t'); out.push('e'); out.push('r'); out.push(' ');
                let v = vec![*c];
                assert(v@ =~= seq![*c]);
                let r = render(&v);
                push_all(&mut out, &r);
                assert(out@ =~= token_display(self@));
            }
            Token::StrLiteral(s) => {
                out.push('s'); out.push('t'); out.push('r'); out.push('i'); out.push('n');
                out.push('g'); out.push(' ');
                let vals = code_points_of(s);
                let r = render(&vals);
                push_all(&mut out, &r);
                assert(out@ =~= token_display(self@));
            }
            Token::Identifier(s) => {
                let mut res = String::from_str("id ");
                res.append(s.as_str());
                proof { reveal_strlit("id "); }
                assert(res@ =~= token_display(self@));
                return res;
            }
            Token::Integer(n) => {
                out.push('i'); out.push('n'); out.push('t'); out.push('e'); out.push('g');
                out.push('e'); out.push('r'); out.push(' ');
                push_signed_decimal(&mut out, *n);
                assert(out@ =~= token_display(self@));
            }
            _ => {
                let b = self.spelling();
                assert(forall|i: int| 0 <= i < b@.len() ==> b@[i] < 128);
                push_ascii(&mut out, &b);
                assert(out@ =~= token_display(self@));
            }
        }
        assert(out@ =~= token_display(self@));
        chars_to_string(&out)
    }
}

/// Collects the code points of a string.
fn code_points_of(s: &String) -> (v: Vec<u32>)
    ensures
        v@ == code_points(s@),
{
    broadcast use vstd::string::group_string_axioms;
    let mut v: Vec<u32> = Vec::new();
    for c in it: s.as_str().chars()
        invariant
            it.seq() == s@,
            v@.len() == it.index(),
            forall|i: int| 0 <= i < it.index() ==> v@[i] == s@[i] as u32,
    {
        v.push(c as u32);
    }
    assert(v@ =~= code_points(s@));
    v
}

} // verus!
