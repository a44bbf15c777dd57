//! The compilation cache: loaded sources and the spans of AST nodes.

use vstd::prelude::*;
use crate::span::Span;
use crate::source_map::{FileId, SourceCache, FileEntry, byte_len, owner, byte_line_col};

verus! {

/// Stable identifier of an AST node, minted together with the node's span.
#[derive(Clone, Copy, Debug, PartialEq, Eq, Hash, Structural)]
pub struct NodeId {
    raw: u32,
}

impl NodeId {
    pub closed spec fn raw(self) -> u32 {
        self.raw
    }

    /// Placeholder for synthesized nodes before real ids are assigned.
    pub fn dummy() -> (n: NodeId)
        ensures
            n.raw() == u32::MAX,
    {
        NodeId { raw: 0xFFFF_FFFF }
    }

    pub fn as_u32(self) -> (r: u32)
        ensures
            r == self.raw(),
    {
        self.raw
    }

    /// Reserved for the span allocator.
    pub fn from_raw(raw: u32) -> (n: NodeId)
        ensures
            n.raw() == raw,
    {
        NodeId { raw }
    }
}

/// Maps every [`NodeId`] to its [`Span`]; also the id allocator, so an id
/// without a span cannot exist.
#[derive(Debug)]
pub struct SpanMap {
    map: Vec<Span>,
}

impl SpanMap {
    /// Spans of the allocated ids, by id.
    pub closed spec fn spans(&self) -> Seq<Span> {
        self.map@
    }

    pub fn new() -> (m: SpanMap)
        ensures
            m.spans().len() == 0,
    {
        SpanMap { map: Vec::new() }
    }

    /// Mints a fresh id recording `span`.
    pub fn alloc_span(&mut self, span: Span) -> (id: NodeId)
        requires
            old(self).spans().len() < u32::MAX,
        ensures
            id.raw() == old(self).spans().len(),
            final(self).spans() == old(self).spans().push(span),
    {
        let id = NodeId::from_raw(self.map.len() as u32);
        self.map.push(span);
        id
    }

    /// The span recorded for `node`; the dummy id maps to the dummy span.
    pub fn span(&self, node: NodeId) -> (s: Span)
        requires
            node.raw() == u32::MAX || node.raw() < self.spans().len(),
        ensures
            node.raw() == u32::MAX ==> s == (Span { lo: 0, hi: 0 }),
            node.raw() != u32::MAX ==> s == self.spans()[node.raw() as int],
    {
        if node.as_u32() == 0xFFFF_FFFF {
            return Span::dummy();
        }
        self.map[node.as_u32() as usize]
    }
}

/// Reading a span back through the id that recorded it gives that span:
/// the id is a real one (never the dummy), it is in the map, and recording
/// leaves the span of every earlier id in place.
pub proof fn lemma_alloc_read_back(before: SpanMap, after: SpanMap, span: Span, id: NodeId, other: NodeId)
    requires
        before.spans().len() < u32::MAX,
        id.raw() == before.spans().len(),
        after.spans() == before.spans().push(span),
        other.raw() < before.spans().len(),
    ensures
        id.raw() != u32::MAX,
        id.raw() < after.spans().len(),
        after.spans()[id.raw() as int] == span,
        other.raw() != id.raw(),
        after.spans()[other.raw() as int] == before.spans()[other.raw() as int],
{
}

/// Side tables about AST nodes.
#[derive(Debug)]
pub struct AstArena {
    pub spans: SpanMap,
}

/// Everything one compilation keeps: loaded sources and node spans.
pub struct EtaCache {
    pub asts: AstArena,
    pub sources: SourceCache,
}

impl EtaCache {
    /// The id of the source stored under `name`, if one is.
    pub open spec fn stored(&self, name: Seq<char>) -> Option<FileId> {
        if exists|i: int| 0 <= i < self.sources.names().len() && self.sources.names()[i] == name
            && self.sources.loaded(FileId { index: i as u32 }) {
            let i = choose|i: int| 0 <= i < self.sources.names().len() && self.sources.names()[i] == name
                && self.sources.loaded(FileId { index: i as u32 });
            Some(FileId { index: i as u32 })
        } else {
            None
        }
    }

    /// Whether a new source of `len` bytes can still be stored.
    pub open spec fn has_room(&self, len: nat) -> bool {
        &&& self.sources.names().len() < u32::MAX
        &&& self.sources.next_base() + len + 1 <= u32::MAX
    }

    /// Whether a new source of `len` bytes can still be stored.
    pub fn can_store(&self, len: usize) -> (b: bool)
        ensures
            b == self.has_room(len as nat),
    {
        self.sources.name_count() < 0xFFFF_FFFF && self.sources.fits(len)
    }

    pub fn new() -> (c: EtaCache)
        ensures
            c.sources.files().len() == 0,
            c.sources.names().len() == 0,
            c.sources.next_base() == 0,
            c.asts.spans.spans().len() == 0,
    {
        EtaCache { asts: AstArena { spans: SpanMap::new() }, sources: SourceCache::new() }
    }

    /// Stores `text` under `name` and returns its id; a name that is already
    /// stored keeps its first text.
    pub fn store_source(&mut self, name: &str, text: String) -> (id: FileId)
        requires
            old(self).sources.names().len() < u32::MAX,
            old(self).sources.next_base() + byte_len(text@) + 1 <= u32::MAX,
        ensures
            id.index < final(self).sources.names().len(),
            final(self).sources.names()[id.index as int] == name@,
            final(self).sources.loaded(id),
            old(self).sources.loaded(id) ==> final(self).sources.files() == old(self).sources.files(),
            !old(self).sources.loaded(id) ==> final(self).sources.files() == old(self).sources.files().push(
                FileEntry { id, base: old(self).sources.next_base(), text: text@ },
            ),
            final(self).asts.spans.spans() == old(self).asts.spans.spans(),
            final(self).stored(name@) == Some(id),
            old(self).stored(name@) is None ==> !old(self).sources.loaded(id),
    {
        let id = self.sources.intern(name).unwrap();
        proof {
            if old(self).stored(name@) is None && old(self).sources.loaded(id) {
                let i = id.index as int;
                assert(0 <= i < old(self).sources.names().len() && old(self).sources.names()[i] == name@
                    && old(self).sources.loaded(FileId { index: i as u32 }));
            }
        }
        if !self.sources.is_loaded(id) {
            self.sources.insert(id, text);
            assert(final(self).sources.files().last().id == id);
        }
        proof {
            let i = id.index as int;
            assert(final(self).sources.loaded(FileId { index: i as u32 }));
            let c = choose|i: int| 0 <= i < final(self).sources.names().len() && final(self).sources.names()[i] == name@
                && final(self).sources.loaded(FileId { index: i as u32 });
            assert(c == i);
        }
        id
    }

    /// The id of a stored source, by name.
    pub fn source_id(&self, name: &str) -> (r: Option<FileId>)
        ensures
            r == self.stored(name@),
            r matches Some(id) ==> self.sources.loaded(id) && id.index < self.sources.names().len()
                && self.sources.names()[id.index as int] == name@,
    {
        match self.sources.id_of(name) {
            Some(id) => {
                if self.sources.is_loaded(id) {
                    proof {
                        let i = id.index as int;
                        assert(0 <= i < self.sources.names().len() && self.sources.names()[i] == name@
                            && self.sources.loaded(FileId { index: i as u32 }));
                        let c = choose|i: int| 0 <= i < self.sources.names().len() && self.sources.names()[i] == name@
                            && self.sources.loaded(FileId { index: i as u32 });
                        assert(c == i);
                    }
                    Some(id)
                } else {
                    proof {
                        assert forall|i: int| 0 <= i < self.sources.names().len() && self.sources.names()[i] == name@
                            implies !self.sources.loaded(FileId { index: i as u32 }) by {
                            assert(i == id.index);
                        }
                    }
                    None
                }
            }
            None => None,
        }
    }

    /// Global offset of a stored source's first byte.
    pub fn base_offset(&self, id: FileId) -> (b: usize)
        requires
            self.sources.loaded(id),
        ensures
            b == self.sources.entry(id).base,
            b + byte_len(self.sources.entry(id).text) < u32::MAX,
    {
        let (base, _) = self.sources.load(id);
        base as usize
    }

    /// Text of a stored source.
    pub fn source_text(&self, id: FileId) -> (t: &str)
        requires
            self.sources.loaded(id),
        ensures
            t@ == self.sources.entry(id).text,
    {
        let (_, text) = self.sources.load(id);
        text
    }

    /// Name of an interned source.
    pub fn source_name(&self, id: FileId) -> (n: &str)
        requires
            id.index < self.sources.names().len(),
        ensures
            n@ == self.sources.names()[id.index as int],
    {
        self.sources.name_of(id)
    }

    /// The owning file of a global span and the local range it covers.
    pub fn resolve_span(&self, span: Span) -> (r: (std::ops::Range<u32>, FileId))
        requires
            self.sources.files().len() > 0,
            span.lo <= span.hi,
            self.sources.files()[owner(self.sources.files(), span.lo as int)].base <= span.lo,
        ensures
            r.1 == self.sources.files()[owner(self.sources.files(), span.lo as int)].id,
            r.0.start == span.lo - self.sources.files()[owner(self.sources.files(), span.lo as int)].base,
            r.0.end == span.hi - self.sources.files()[owner(self.sources.files(), span.lo as int)].base,
    {
        let (id, range) = self.sources.resolve(span);
        ((range.start as u32)..(range.end as u32), id)
    }

    /// 1-based `(line, column)` of a global byte offset.
    pub fn line_column(&self, offset: u32) -> (r: (usize, usize))
        requires
            self.sources.files().len() > 0,
            self.sources.files()[owner(self.sources.files(), offset as int)].base <= offset
                <= self.sources.files()[owner(self.sources.files(), offset as int)].base
                + byte_len(self.sources.files()[owner(self.sources.files(), offset as int)].text),
        ensures
            ({
                let e = self.sources.files()[owner(self.sources.files(), offset as int)];
                &&& r.0 == byte_line_col(e.text, (offset - e.base) as nat).0 + 1
                &&& r.1 == byte_line_col(e.text, (offset - e.base) as nat).1 + 1
            }),
    {
        self.sources.lc_index(offset)
    }
}

} // verus!
