//! Names of the tests generated from a directory of example files.

use vstd::prelude::*;
use crate::text::{chars_of, chars_to_string};

verus! {

/// Whether `c` is an ASCII letter or digit.
pub open spec fn is_ascii_alphanumeric(c: char) -> bool {
    ('0' <= c <= '9') || ('A' <= c <= 'Z') || ('a' <= c <= 'z')
}

/// `c`, or `_` when it cannot stand in a Rust identifier.
pub open spec fn sanitized_char(c: char) -> char {
    if is_ascii_alphanumeric(c) { c } else { '_' }
}

/// Turns a file name into a valid Rust identifier suffix: every character
/// that is not an ASCII letter or digit becomes `_`.
pub fn sanitize(name: &str) -> (s: String)
    ensures
        s@ == name@.map_values(|c: char| sanitized_char(c)),
{
    let chars = chars_of(name);
    let mut out: Vec<char> = Vec::new();
    let mut i: usize = 0;
    while i < chars.len()
        invariant
            i <= chars@.len(),
            out@ == chars@.subrange(0, i as int).map_values(|c: char| sanitized_char(c)),
        decreases chars.len() - i,
    {
        let c = chars[i];
        let keep = ('0' <= c && c <= '9') || ('A' <= c && c <= 'Z') || ('a' <= c && c <= 'z');
        out.push(if keep { c } else { '_' });
        i = i + 1;
        assert(out@ =~= chars@.subrange(0, i as int).map_values(|c: char| sanitized_char(c)));
    }
    assert(chars@.subrange(0, chars@.len() as int) =~= chars@);
    chars_to_string(&out)
}

/// The name of the test generated by `function` for the example file whose
/// stem is `stem`: `<function>_<sanitized stem>`.
pub fn test_name(function: &str, stem: &str) -> (s: String)
    ensures
        s@ == function@ + seq!['_'] + stem@.map_values(|c: char| sanitized_char(c)),
{
    let mut s = String::from_str(function);
    s.append("_");
    let tail = sanitize(stem);
    s.append(tail.as_str());
    proof { reveal_strlit("_"); }
    s
}

} // verus!
