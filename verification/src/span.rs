//! Byte ranges in the global source space.
//!
//! Every loaded file occupies a disjoint slice `[base, base + len)` of one
//! `u32`-addressed space; a [`Span`] is a half-open range `[lo, hi)` in it.

use vstd::prelude::*;

verus! {

/// A half-open byte range `[lo, hi)` in the global source space.
#[derive(Clone, Copy, Debug, PartialEq, Eq, Structural)]
pub struct Span {
    pub lo: u32,
    pub hi: u32,
}

/// Smallest span covering both arguments.
pub open spec fn spec_span_join(a: Span, b: Span) -> Span {
    Span {
        lo: if a.lo <= b.lo { a.lo } else { b.lo },
        hi: if a.hi >= b.hi { a.hi } else { b.hi },
    }
}

impl Span {
    /// Placeholder span for synthesized nodes; it never reaches a diagnostic.
    pub fn dummy() -> (s: Span)
        ensures
            s.lo == 0 && s.hi == 0,
    {
        Span { lo: 0, hi: 0 }
    }

    pub open spec fn contains_offset(self, off: int) -> bool {
        self.lo <= off < self.hi
    }

    pub fn new(lo: u32, hi: u32) -> (s: Span)
        ensures
            s.lo == lo,
            s.hi == hi,
    {
        Span { lo, hi }
    }

    /// Smallest span covering both `self` and `other`.
    pub fn to(self, other: Span) -> (s: Span)
        ensures
            s == spec_span_join(self, other),
    {
        let lo = if self.lo <= other.lo { self.lo } else { other.lo };
        let hi = if self.hi >= other.hi { self.hi } else { other.hi };
        Span { lo, hi }
    }

    pub fn len(self) -> (n: u32)
        requires
            self.lo <= self.hi,
        ensures
            n == self.hi - self.lo,
    {
        self.hi - self.lo
    }

    pub fn is_empty(self) -> (b: bool)
        ensures
            b == (self.lo == self.hi),
    {
        self.lo == self.hi
    }
}

/// Joining spans is commutative.
pub proof fn lemma_join_commutative(a: Span, b: Span)
    ensures
        spec_span_join(a, b) == spec_span_join(b, a),
{
}

/// Joining spans is associative.
pub proof fn lemma_join_associative(a: Span, b: Span, c: Span)
    ensures
        spec_span_join(spec_span_join(a, b), c) == spec_span_join(a, spec_span_join(b, c)),
{
}

/// Joining a span with itself gives it back.
pub proof fn lemma_join_idempotent(a: Span)
    ensures
        spec_span_join(a, a) == a,
{
}

/// The join of two well-formed spans is well-formed and covers every offset
/// that either of them covers.
pub proof fn lemma_join_covers(a: Span, b: Span, off: int)
    requires
        a.lo <= a.hi,
        b.lo <= b.hi,
    ensures
        spec_span_join(a, b).lo <= spec_span_join(a, b).hi,
        a.contains_offset(off) || b.contains_offset(off) ==> spec_span_join(a, b).contains_offset(off),
{
}

/// A byte range within one file, by the file's id.
#[derive(Debug)]
pub struct EtaSpan {
    pub file_id: crate::source_map::SourceId,
    pub range: std::ops::Range<usize>,
}

impl EtaSpan {
    pub fn new(file_id: crate::source_map::SourceId, l: usize, r: usize) -> (s: EtaSpan)
        ensures
            s.file_id == file_id,
            s.range.start == l,
            s.range.end == r,
    {
        EtaSpan { file_id, range: l..r }
    }
}

} // verus!
