//! File names and the source map.
//!
//! All loaded files share one global byte-offset space: each file is
//! assigned a `base` and occupies `[base, base + len)`, with a one-byte gap
//! between files. A [`Span`] is two offsets into that space; the owning file
//! is recovered on demand by [`SourceCache::resolve`]. The space is
//! addressed with `u32`.

use vstd::prelude::*;
use vstd::utf8::encode_utf8;
use crate::span::Span;

verus! {

/// A `Copy` handle naming a source or interface file: an index into a
/// [`FileNames`] table.
#[derive(Clone, Copy, Debug, PartialEq, Eq, Hash, Structural)]
pub struct FileId {
    pub index: u32,
}

/// File containing source code.
pub type SourceId = FileId;
/// File containing an interface.
pub type InterfaceId = FileId;

/// Interned file paths: one entry per distinct path, never removed.
pub struct FileNames {
    by_index: Vec<String>,
}

/// No name occurs twice in `names`.
pub open spec fn distinct_names(names: Seq<Seq<char>>) -> bool {
    forall|i: int, j: int| 0 <= i < names.len() && 0 <= j < names.len() && i != j ==> names[i] != names[j]
}

/// What interning `name` does to the table `before`, giving `after` and the
/// answer `r`: a name already present keeps its id and changes nothing; a
/// new one is appended under the next index while an index is left;
/// otherwise nothing changes and there is no id.
pub open spec fn interns(before: Seq<Seq<char>>, name: Seq<char>, after: Seq<Seq<char>>, r: Option<FileId>) -> bool {
    if before.contains(name) {
        &&& r matches Some(id)
        &&& id.index < before.len()
        &&& before[id.index as int] == name
        &&& after == before
    } else if before.len() < u32::MAX {
        &&& r == Some(FileId { index: before.len() as u32 })
        &&& after == before.push(name)
    } else {
        &&& r is None
        &&& after == before
    }
}

/// Number of bytes of the UTF-8 encoding of `t`.
pub open spec fn byte_len(t: Seq<char>) -> nat {
    encode_utf8(t).len()
}

impl FileNames {
    /// The interned names, by index.
    pub closed spec fn names(&self) -> Seq<Seq<char>> {
        self.by_index@.map_values(|s: String| s@)
    }

    #[verifier::type_invariant]
    spec fn inv(self) -> bool {
        &&& distinct_names(self.names())
        &&& self.by_index@.len() <= u32::MAX
    }

    pub fn new() -> (t: FileNames)
        ensures
            t.names().len() == 0,
            distinct_names(t.names()),
    {
        FileNames { by_index: Vec::new() }
    }

    /// Number of interned names.
    pub fn len(&self) -> (n: usize)
        ensures
            n == self.names().len(),
    {
        self.by_index.len()
    }

    /// The id of `name`, if it has been interned.
    pub fn lookup(&self, name: &str) -> (r: Option<FileId>)
        ensures
            match r {
                Some(id) => id.index < self.names().len() && self.names()[id.index as int] == name@
                    && forall|i: int| 0 <= i < self.names().len() && self.names()[i] == name@ ==> i == id.index,
                None => forall|i: int| 0 <= i < self.names().len() ==> self.names()[i] != name@,
            },
    {
        proof { use_type_invariant(self); }
        let key = String::from_str(name);
        let mut i: usize = 0;
        while i < self.by_index.len()
            invariant
                i <= self.by_index@.len(),
                self.by_index@.len() <= u32::MAX,
                distinct_names(self.names()),
                key@ == name@,
                forall|k: int| 0 <= k < i ==> self.names()[k] != name@,
            decreases self.by_index.len() - i,
        {
            if self.by_index[i] == key {
                return Some(FileId { index: i as u32 });
            }
            i = i + 1;
        }
        None
    }

    /// Interns `name`: the id it already has, or a fresh one. Fails only
    /// when the table already holds `u32::MAX` names.
    pub fn intern(&mut self, name: &str) -> (r: Option<FileId>)
        ensures
            interns(old(self).names(), name@, final(self).names(), r),
            distinct_names(final(self).names()),
    {
        proof { use_type_invariant(&*self); }
        match self.lookup(name) {
            Some(id) => {
                proof { assert(self.names().contains(name@)); }
                Some(id)
            }
            None => {
                if self.by_index.len() >= 0xFFFF_FFFF {
                    return None;
                }
                let id = FileId { index: self.by_index.len() as u32 };
                let mut names = Vec::new();
                std::mem::swap(&mut names, &mut self.by_index);
                let ghost before = names@;
                names.push(String::from_str(name));
                assert(names@.map_values(|s: String| s@) =~= before.map_values(|s: String| s@).push(name@));
                self.by_index = names;
                Some(id)
            }
        }
    }

    /// The path named by `id`.
    pub fn name_of(&self, id: FileId) -> (s: &str)
        requires
            id.index < self.names().len(),
        ensures
            s@ == self.names()[id.index as int],
    {
        self.by_index[id.index as usize].as_str()
    }
}

/// Interning a name that is already interned gives the id it got the
/// first time and leaves the table as it was; the name reads back through
/// that id.
pub proof fn lemma_intern_twice(n0: Seq<Seq<char>>, n1: Seq<Seq<char>>, n2: Seq<Seq<char>>, name: Seq<char>, id: FileId,
    r: Option<FileId>)
    requires
        distinct_names(n0),
        interns(n0, name, n1, Some(id)),
        interns(n1, name, n2, r),
    ensures
        r == Some(id),
        n2 == n1,
        id.index < n1.len(),
        n1[id.index as int] == name,
{
    if !n0.contains(name) {
        assert(n1[n0.len() as int] == name);
        assert(distinct_names(n1)) by {
            assert forall|i: int, j: int| 0 <= i < n1.len() && 0 <= j < n1.len() && i != j implies n1[i] != n1[j] by {
                if i == n0.len() {
                    assert(!(n0[j] == name));
                } else if j == n0.len() {
                    assert(!(n0[i] == name));
                }
            }
        }
    }
    assert(n1.contains(name));
    let id2 = r.unwrap();
    assert(id2.index == id.index);
}

/// In a table without repetitions, two ids of it are the same exactly when
/// they name the same path.
pub proof fn lemma_same_id_iff_same_name(names: Seq<Seq<char>>, a: FileId, b: FileId)
    requires
        distinct_names(names),
        a.index < names.len(),
        b.index < names.len(),
    ensures
        (a == b) <==> (names[a.index as int] == names[b.index as int]),
{
}

impl FileId {
    /// Interns `name` in `names`; `None` when the table is full.
    pub fn new(names: &mut FileNames, name: &str) -> (r: Option<FileId>)
        ensures
            interns(old(names).names(), name@, final(names).names(), r),
            distinct_names(final(names).names()),
            r matches Some(id) ==> id.index < final(names).names().len()
                && final(names).names()[id.index as int] == name@
                && forall|i: int| 0 <= i < final(names).names().len() && final(names).names()[i] == name@ ==> i == id.index,
            old(names).names().len() < u32::MAX ==> r is Some,
            final(names).names().len() >= old(names).names().len(),
            final(names).names().len() <= old(names).names().len() + 1,
            forall|i: int| 0 <= i < old(names).names().len() ==> final(names).names()[i] == old(names).names()[i],
    {
        names.intern(name)
    }

    /// The path this id names.
    pub fn as_str<'a>(&self, names: &'a FileNames) -> (s: &'a str)
        requires
            self.index < names.names().len(),
        ensures
            s@ == names.names()[self.index as int],
    {
        names.name_of(*self)
    }
}

/// A loaded file, as seen by specifications.
pub struct FileEntry {
    pub id: FileId,
    pub base: nat,
    pub text: Seq<char>,
}

/// One loaded file.
struct LoadedFile {
    id: FileId,
    base: u32,
    text: String,
}

impl LoadedFile {
    closed spec fn view(&self) -> FileEntry {
        FileEntry { id: self.id, base: self.base as nat, text: self.text@ }
    }
}

/// Global offset right after `e` and its one-byte gap.
pub open spec fn end_of(e: FileEntry) -> nat {
    e.base + byte_len(e.text) + 1
}

/// No file occurs twice in `files`.
pub open spec fn distinct_ids(files: Seq<FileEntry>) -> bool {
    forall|i: int, j: int| 0 <= i < files.len() && 0 <= j < files.len() && i != j ==> files[i].id != files[j].id
}

/// Files are laid out one after another from offset 0, each followed by a
/// one-byte gap.
pub open spec fn laid_out(files: Seq<FileEntry>) -> bool {
    &&& files.len() > 0 ==> files[0].base == 0
    &&& forall|i: int| #![trigger files[i + 1]] 0 <= i < files.len() - 1 ==> files[i + 1].base == end_of(files[i])
}

/// Where the next file goes.
pub open spec fn next_base_of(files: Seq<FileEntry>) -> nat {
    if files.len() == 0 { 0 } else { end_of(files.last()) }
}

/// Index of the last file whose base is at most `off` among the first `n`,
/// or -1.
pub open spec fn last_at_or_below(files: Seq<FileEntry>, n: int, off: int) -> int
    decreases n,
{
    if n <= 0 {
        -1
    } else if files[n - 1].base <= off {
        n - 1
    } else {
        last_at_or_below(files, n - 1, off)
    }
}

/// Index of the file that owns global offset `off`.
pub open spec fn owner(files: Seq<FileEntry>, off: int) -> int {
    let i = last_at_or_below(files, files.len() as int, off);
    if i < 0 { 0 } else { i }
}

pub proof fn lemma_bases_increase(files: Seq<FileEntry>, i: int, j: int)
    requires
        laid_out(files),
        0 <= i < j < files.len(),
    ensures
        end_of(files[i]) <= files[j].base,
    decreases j - i,
{
    if i + 1 < j {
        lemma_bases_increase(files, i + 1, j);
        assert(files[i + 1].base == end_of(files[i]));
    } else {
        assert(files[i + 1].base == end_of(files[i]));
    }
}

proof fn lemma_partition(files: Seq<FileEntry>, n: int, p: int, off: int)
    requires
        0 <= p <= n <= files.len(),
        forall|i: int| 0 <= i < p ==> files[i].base <= off,
        forall|i: int| p <= i < n ==> files[i].base > off,
    ensures
        last_at_or_below(files, n, off) == p - 1,
    decreases n,
{
    if n > p {
        lemma_partition(files, n - 1, p, off);
    }
}

/// Owns every loaded file, hands each a disjoint slice of the global byte
/// space, and resolves global spans back to a file and a local range.
pub struct SourceCache {
    names: FileNames,
    files: Vec<LoadedFile>,
    next_base: u32,
}

impl SourceCache {
    /// The loaded files, in load order.
    pub closed spec fn files(&self) -> Seq<FileEntry> {
        self.files@.map_values(|f: LoadedFile| f.view())
    }

    /// The interned names.
    pub closed spec fn names(&self) -> Seq<Seq<char>> {
        self.names.names()
    }

    #[verifier::type_invariant]
    spec fn inv(self) -> bool {
        &&& laid_out(self.files())
        &&& self.next_base == next_base_of(self.files())
        &&& forall|i: int| #![trigger self.files()[i]] 0 <= i < self.files().len()
            ==> self.files()[i].id.index < self.names().len()
        &&& distinct_ids(self.files())
    }

    /// Whether `id` has been loaded.
    pub open spec fn loaded(&self, id: FileId) -> bool {
        exists|i: int| 0 <= i < self.files().len() && self.files()[i].id == id
    }

    /// The entry of a loaded file.
    pub open spec fn entry(&self, id: FileId) -> FileEntry {
        self.files()[choose|i: int| 0 <= i < self.files().len() && self.files()[i].id == id]
    }

    /// Where the next loaded file will be placed.
    pub closed spec fn next_base(&self) -> nat {
        self.next_base as nat
    }

    pub fn new() -> (c: SourceCache)
        ensures
            c.files().len() == 0,
            c.names().len() == 0,
            c.next_base() == 0,
            distinct_ids(c.files()),
    {
        let c = SourceCache { names: FileNames::new(), files: Vec::new(), next_base: 0 };
        assert(c.files() =~= Seq::<FileEntry>::empty());
        c
    }

    /// Interns a path, giving the id that names it.
    pub fn intern(&mut self, name: &str) -> (r: Option<FileId>)
        ensures
            final(self).files() == old(self).files(),
            final(self).next_base() == old(self).next_base(),
            r matches Some(id) ==> id.index < final(self).names().len() && final(self).names()[id.index as int] == name@
                && forall|i: int| 0 <= i < final(self).names().len() && final(self).names()[i] == name@ ==> i == id.index,
            r matches Some(id) ==> (id.index < old(self).names().len() ==> old(self).names()[id.index as int] == name@)
                && (id.index >= old(self).names().len() ==> !old(self).loaded(id)),
            old(self).names().len() < u32::MAX ==> r is Some,
            forall|i: int| 0 <= i < old(self).names().len() ==> final(self).names()[i] == old(self).names()[i],
    {
        proof { use_type_invariant(&*self); }
        let mut tmp = SourceCache::new();
        std::mem::swap(&mut tmp, self);
        let SourceCache { mut names, files, next_base } = tmp;
        let r = FileId::new(&mut names, name);
        *self = SourceCache { names, files, next_base };
        proof {
            if let Some(id) = r {
                if id.index >= old(self).names().len() && old(self).loaded(id) {
                    let i = choose|i: int| 0 <= i < old(self).files().len() && old(self).files()[i].id == id;
                    assert(old(self).files()[i].id.index < old(self).names().len());
                }
            }
        }
        r
    }

    /// Number of interned paths.
    pub fn name_count(&self) -> (n: usize)
        ensures
            n == self.names().len(),
    {
        self.names.len()
    }

    /// The path of an interned id.
    pub fn name_of(&self, id: FileId) -> (s: &str)
        requires
            id.index < self.names().len(),
        ensures
            s@ == self.names()[id.index as int],
    {
        self.names.name_of(id)
    }

    /// The id of an interned path.
    pub fn id_of(&self, name: &str) -> (r: Option<FileId>)
        ensures
            match r {
                Some(id) => id.index < self.names().len() && self.names()[id.index as int] == name@
                    && forall|i: int| 0 <= i < self.names().len() && self.names()[i] == name@ ==> i == id.index,
                None => forall|i: int| 0 <= i < self.names().len() ==> self.names()[i] != name@,
            },
    {
        proof { use_type_invariant(self); }
        self.names.lookup(name)
    }

    fn position(&self, id: FileId) -> (r: Option<usize>)
        ensures
            match r {
                Some(i) => i < self.files().len() && self.files()[i as int].id == id,
                None => !self.loaded(id),
            },
    {
        let mut i: usize = 0;
        while i < self.files.len()
            invariant
                i <= self.files@.len(),
                forall|k: int| 0 <= k < i ==> self.files()[k].id != id,
            decreases self.files.len() - i,
        {
            if self.files[i].id == id {
                return Some(i);
            }
            i = i + 1;
        }
        None
    }

    /// Whether `id` has been loaded.
    pub fn is_loaded(&self, id: FileId) -> (b: bool)
        ensures
            b == self.loaded(id),
    {
        self.position(id).is_some()
    }

    /// Whether a file of `len` bytes still fits in the global space.
    pub fn fits(&self, len: usize) -> (b: bool)
        ensures
            b == (self.next_base() + len + 1 <= u32::MAX),
    {
        len < 0xFFFF_FFFF && (self.next_base as usize) <= 0xFFFF_FFFE - len
    }

    /// Places the text of `id` at the next free base and returns the base.
    pub fn insert(&mut self, id: FileId, text: String) -> (base: u32)
        requires
            id.index < old(self).names().len(),
            !old(self).loaded(id),
            old(self).next_base() + byte_len(text@) + 1 <= u32::MAX,
        ensures
            base == old(self).next_base(),
            final(self).files() == old(self).files().push(FileEntry { id, base: base as nat, text: text@ }),
            final(self).names() == old(self).names(),
            final(self).next_base() == base + byte_len(text@) + 1,
            distinct_ids(final(self).files()),
    {
        proof { use_type_invariant(&*self); }
        let len = text.as_str().len();
        let mut tmp = SourceCache::new();
        std::mem::swap(&mut tmp, self);
        let SourceCache { names, mut files, next_base } = tmp;
        let base = next_base;
        let ghost before = files@;
        files.push(LoadedFile { id, base, text });
        let next = base + (len as u32) + 1;
        let ghost new_files = files@.map_values(|f: LoadedFile| f.view());
        assert(new_files =~= before.map_values(|f: LoadedFile| f.view()).push(FileEntry { id, base: base as nat, text: text@ }));
        assert(laid_out(new_files)) by {
            assert forall|i: int| #![trigger new_files[i + 1]] 0 <= i < new_files.len() - 1
                implies new_files[i + 1].base == end_of(new_files[i]) by {
                if i + 1 < new_files.len() - 1 {
                    assert(new_files[i + 1] == before.map_values(|f: LoadedFile| f.view())[i + 1]);
                }
            }
        }
        *self = SourceCache { names, files, next_base: next };
        base
    }

    /// Base and text of a loaded file.
    pub fn load(&self, id: FileId) -> (r: (u32, &str))
        requires
            self.loaded(id),
        ensures
            r.0 == self.entry(id).base,
            r.1@ == self.entry(id).text,
            r.0 + byte_len(r.1@) < u32::MAX,
    {
        proof { use_type_invariant(self); }
        let i = self.position(id).unwrap();
        proof {
            let k = choose|k: int| 0 <= k < self.files().len() && self.files()[k].id == id;
            assert(k == i as int);
            if i + 1 < self.files().len() {
                assert(self.files()[i + 1].base == end_of(self.files()[i as int]));
            }
        }
        (self.files[i].base, self.files[i].text.as_str())
    }

    /// Whether global offset `off` lies at or after the start of the file
    /// that owns it, so that it can be resolved.
    pub fn covers(&self, off: u32) -> (b: bool)
        ensures
            b == (self.files().len() > 0 && self.files()[owner(self.files(), off as int)].base <= off),
    {
        if self.files.len() == 0 {
            false
        } else {
            let i = self.owner_position(off);
            self.files[i].base <= off
        }
    }

    /// The file owning global offset `off`, by binary search over the bases.
    fn owner_position(&self, off: u32) -> (i: usize)
        requires
            self.files().len() > 0,
        ensures
            i == owner(self.files(), off as int),
            i < self.files().len(),
    {
        proof { use_type_invariant(self); }
        let mut lo: usize = 0;
        let mut hi: usize = self.files.len();
        while lo < hi
            invariant
                0 <= lo <= hi <= self.files@.len(),
                laid_out(self.files()),
                forall|k: int| 0 <= k < lo ==> self.files()[k].base <= off,
                forall|k: int| hi <= k < self.files().len() ==> self.files()[k].base > off,
            decreases hi - lo,
        {
            let mid = lo + (hi - lo) / 2;
            if self.files[mid].base <= off {
                proof {
                    assert forall|k: int| 0 <= k < mid + 1 implies self.files()[k].base <= off by {
                        if k < mid {
                            lemma_bases_increase(self.files(), k, mid as int);
                        }
                    }
                }
                lo = mid + 1;
            } else {
                proof {
                    assert forall|k: int| mid <= k < self.files().len() implies self.files()[k].base > off by {
                        if k > mid {
                            lemma_bases_increase(self.files(), mid as int, k);
                        }
                    }
                }
                hi = mid;
            }
        }
        proof { lemma_partition(self.files(), self.files().len() as int, lo as int, off as int); }
        if lo == 0 { 0 } else { lo - 1 }
    }

    /// Resolves a global span to its owning file and the local byte range.
    pub fn resolve(&self, span: Span) -> (r: (FileId, std::ops::Range<usize>))
        requires
            self.files().len() > 0,
            span.lo <= span.hi,
            self.files()[owner(self.files(), span.lo as int)].base <= span.lo,
        ensures
            r.0 == self.files()[owner(self.files(), span.lo as int)].id,
            r.1.start == span.lo - self.files()[owner(self.files(), span.lo as int)].base,
            r.1.end == span.hi - self.files()[owner(self.files(), span.lo as int)].base,
    {
        let i = self.owner_position(span.lo);
        let base = self.files[i].base;
        (self.files[i].id, ((span.lo - base) as usize)..((span.hi - base) as usize))
    }

    /// 1-based `(line, column)` of a local byte offset within a loaded file.
    pub fn file_lc_index(&self, id: FileId, offset: usize) -> (r: (usize, usize))
        requires
            self.loaded(id),
            offset <= byte_len(self.entry(id).text),
        ensures
            r.0 == byte_line_col(self.entry(id).text, offset as nat).0 + 1,
            r.1 == byte_line_col(self.entry(id).text, offset as nat).1 + 1,
    {
        let (_, text) = self.load(id);
        let (line, col) = line_and_column(text, offset);
        proof { lemma_line_col_bounded(text@, text@.len(), offset as nat); }
        (line + 1, col + 1)
    }

    /// 1-based `(line, column)` of a global byte offset.
    pub fn lc_index(&self, global_offset: u32) -> (r: (usize, usize))
        requires
            self.files().len() > 0,
            self.files()[owner(self.files(), global_offset as int)].base <= global_offset
                <= self.files()[owner(self.files(), global_offset as int)].base
                + byte_len(self.files()[owner(self.files(), global_offset as int)].text),
        ensures
            ({
                let e = self.files()[owner(self.files(), global_offset as int)];
                &&& r.0 == byte_line_col(e.text, (global_offset - e.base) as nat).0 + 1
                &&& r.1 == byte_line_col(e.text, (global_offset - e.base) as nat).1 + 1
            }),
    {
        proof { use_type_invariant(self); }
        let i = self.owner_position(global_offset);
        let base = self.files[i].base;
        let (line, col) = line_and_column(self.files[i].text.as_str(), (global_offset - base) as usize);
        proof {
            lemma_line_col_bounded(self.files[i as int].text@, self.files[i as int].text@.len(), (global_offset - base) as nat);
        }
        (line + 1, col + 1)
    }
}

/// A file stored in a cache reads back with the base and text it was stored
/// with, and every file stored before it still reads back as it did.
pub proof fn lemma_insert_read_back(before: SourceCache, after: SourceCache, e: FileEntry, other: FileId)
    requires
        distinct_ids(before.files()),
        !before.loaded(e.id),
        after.files() == before.files().push(e),
    ensures
        after.loaded(e.id),
        after.entry(e.id) == e,
        before.loaded(other) ==> after.loaded(other) && after.entry(other) == before.entry(other),
{
    let n = before.files().len() as int;
    assert(after.files()[n].id == e.id);
    let k = choose|i: int| 0 <= i < after.files().len() && after.files()[i].id == e.id;
    if k < n {
        assert(before.files()[k].id == e.id);
    }
    if before.loaded(other) {
        let j = choose|i: int| 0 <= i < before.files().len() && before.files()[i].id == other;
        assert(after.files()[j].id == other);
        let m = choose|i: int| 0 <= i < after.files().len() && after.files()[i].id == other;
        if m == n {
            assert(before.files()[j].id == e.id);
        }
        assert(before.files()[m].id == other);
    }
}

/// Two files stored one after the other in an empty cache lie at offset 0
/// and right after the first file and its one-byte gap, and both read back
/// as stored.
pub proof fn lemma_two_files_read_back(c0: SourceCache, c1: SourceCache, c2: SourceCache, a: FileId, ta: Seq<char>, b: FileId,
    tb: Seq<char>)
    requires
        c0.files().len() == 0,
        c0.next_base() == 0,
        c1.files() == c0.files().push(FileEntry { id: a, base: c0.next_base(), text: ta }),
        c1.next_base() == c0.next_base() + byte_len(ta) + 1,
        !c1.loaded(b),
        c2.files() == c1.files().push(FileEntry { id: b, base: c1.next_base(), text: tb }),
    ensures
        c2.loaded(a),
        c2.entry(a) == (FileEntry { id: a, base: 0, text: ta }),
        c2.loaded(b),
        c2.entry(b) == (FileEntry { id: b, base: byte_len(ta) + 1, text: tb }),
{
    assert(!c0.loaded(a));
    lemma_insert_read_back(c0, c1, FileEntry { id: a, base: 0, text: ta }, a);
    assert(distinct_ids(c1.files()));
    lemma_insert_read_back(c1, c2, FileEntry { id: b, base: byte_len(ta) + 1, text: tb }, a);
}

/// A file owns every global offset from its base to its end.
pub proof fn lemma_owner_of_own_offsets(files: Seq<FileEntry>, i: int, off: int)
    requires
        laid_out(files),
        0 <= i < files.len(),
        files[i].base <= off < end_of(files[i]),
    ensures
        owner(files, off) == i,
{
    assert forall|k: int| 0 <= k < i + 1 implies files[k].base <= off by {
        if k < i {
            lemma_bases_increase(files, k, i);
        }
    }
    assert forall|k: int| i + 1 <= k < files.len() implies files[k].base > off by {
        lemma_bases_increase(files, i, k);
    }
    lemma_partition(files, files.len() as int, i + 1, off);
}

/// Whether `ariadne` ends a line with `c`: CR, LF, VT, FF, U+0085,
/// U+2028 or U+2029.
pub open spec fn ends_line(c: char) -> bool {
    c == '\r' || c == '\n' || c == '\x0B' || c == '\x0C' || c == '\u{0085}' || c == '\u{2028}' || c == '\u{2029}'
}

/// Whether a new line begins right after the `i`-th character of `text`:
/// that character ends a line, it is not a CR directly followed by an LF
/// (the pair ends one line), and some character follows it.
pub open spec fn line_breaks_after(text: Seq<char>, i: int) -> bool {
    &&& 0 <= i
    &&& i + 1 < text.len()
    &&& ends_line(text[i])
    &&& !(text[i] == '\r' && text[i + 1] == '\n')
}

/// Zero-based line and byte column of the byte offset `offset`, counting
/// the line breaks among the first `k` characters of `text`: the line is
/// the number of lines that begin at or before `offset`, the column the
/// distance from the start of the last of them.
pub open spec fn line_col_upto(text: Seq<char>, k: nat, offset: nat) -> (nat, nat)
    decreases k,
{
    if k == 0 {
        (0, offset)
    } else {
        let before = line_col_upto(text, (k - 1) as nat, offset);
        let start = byte_len(text.take(k as int));
        if line_breaks_after(text, k - 1) && start <= offset {
            (before.0 + 1, (offset - start) as nat)
        } else {
            before
        }
    }
}

/// Zero-based `(line, byte column)` of a byte offset of `text`, as
/// `ariadne`'s `Source` assigns them.
pub open spec fn byte_line_col(text: Seq<char>, offset: nat) -> (nat, nat) {
    line_col_upto(text, text.len(), offset)
}

/// A text takes at least one byte per character.
pub proof fn lemma_byte_len_at_least_chars(t: Seq<char>)
    ensures
        byte_len(t) >= t.len(),
    decreases t.len(),
{
    if t.len() > 0 {
        lemma_byte_len_at_least_chars(t.drop_first());
        assert(encode_utf8(t) == vstd::utf8::encode_scalar(t[0] as u32) + encode_utf8(t.drop_first()));
        assert(vstd::utf8::encode_scalar(t[0] as u32).len() >= 1);
    }
}

/// Neither the line nor the column of an offset exceeds the offset: every
/// line before the last holds at least one byte.
pub proof fn lemma_line_col_bounded(text: Seq<char>, k: nat, offset: nat)
    requires
        k <= text.len(),
    ensures
        line_col_upto(text, k, offset).0 <= k,
        line_col_upto(text, k, offset).0 <= offset,
        line_col_upto(text, k, offset).1 <= offset,
    decreases k,
{
    if k > 0 {
        lemma_line_col_bounded(text, (k - 1) as nat, offset);
        lemma_byte_len_at_least_chars(text.take(k as int));
    }
}

/// Zero-based line and byte column of `offset` in `text`, as computed by
/// `ariadne::Source::get_byte_line` on `ariadne::Source::from(text)`, which
/// answers for every offset up to the text's byte length.
#[verifier::external_body]
pub(crate) fn line_and_column(text: &str, offset: usize) -> (r: (usize, usize))
    requires
        offset <= byte_len(text@),
    ensures
        r.0 as nat == byte_line_col(text@, offset as nat).0,
        r.1 as nat == byte_line_col(text@, offset as nat).1,
{
    let source = ariadne::Source::from(text);
    let (_, line, col) = source.get_byte_line(offset).expect("offset within the text");
    (line, col)
}

} // verus!
