//! An in-memory source store for tests: named texts, each under the id of
//! its position, a name stored at most once.

use vstd::prelude::*;
use crate::source_map::FileId;

verus! {

/// One stored text.
#[derive(Debug)]
pub struct Entry {
    id: FileId,
    name: String,
    content: String,
}

/// Named texts kept in memory.
#[derive(Debug)]
pub struct TestingCache {
    data: Vec<Entry>,
}

impl TestingCache {
    /// The stored `(name, text)` pairs, by id.
    pub closed spec fn entries(&self) -> Seq<(Seq<char>, Seq<char>)> {
        self.data@.map_values(|e: Entry| (e.name@, e.content@))
    }

    #[verifier::type_invariant]
    spec fn inv(self) -> bool {
        &&& forall|i: int| 0 <= i < self.data@.len() ==> (#[trigger] self.data@[i]).id.index == i
        &&& forall|i: int, j: int| 0 <= i < j < self.data@.len() ==> self.data@[i].name@ != self.data@[j].name@
        &&& self.data@.len() <= u32::MAX
    }

    pub fn new() -> (c: TestingCache)
        ensures
            c.entries().len() == 0,
    {
        let c = TestingCache { data: Vec::new() };
        assert(c.entries() =~= Seq::<(Seq<char>, Seq<char>)>::empty());
        c
    }

    /// The id of the text stored under `display_name`, if any.
    pub fn contains(&self, display_name: &str) -> (r: Option<FileId>)
        ensures
            match r {
                Some(id) => id.index < self.entries().len() && self.entries()[id.index as int].0 == display_name@,
                None => forall|i: int| 0 <= i < self.entries().len() ==> self.entries()[i].0 != display_name@,
            },
    {
        proof { use_type_invariant(self); }
        let key = String::from_str(display_name);
        let mut i: usize = 0;
        while i < self.data.len()
            invariant
                i <= self.data@.len(),
                key@ == display_name@,
                forall|k: int| 0 <= k < self.data@.len() ==> (#[trigger] self.data@[k]).id.index == k,
                forall|k: int| 0 <= k < i ==> self.entries()[k].0 != display_name@,
            decreases self.data.len() - i,
        {
            if self.data[i].name == key {
                return Some(self.data[i].id);
            }
            i = i + 1;
        }
        None
    }

    /// Stores `value` under `display_name` and gives its id and stored text;
    /// a name already stored keeps its first text.
    pub fn store(&mut self, display_name: String, value: String) -> (r: (FileId, &str))
        requires
            old(self).entries().len() < u32::MAX,
        ensures
            r.0.index < final(self).entries().len(),
            final(self).entries()[r.0.index as int].0 == display_name@,
            r.1@ == final(self).entries()[r.0.index as int].1,
            (exists|i: int| 0 <= i < old(self).entries().len() && old(self).entries()[i].0 == display_name@)
                ==> final(self).entries() == old(self).entries(),
            !(exists|i: int| 0 <= i < old(self).entries().len() && old(self).entries()[i].0 == display_name@)
                ==> final(self).entries() == old(self).entries().push((display_name@, value@)),
    {
        proof { use_type_invariant(&*self); }
        match self.contains(display_name.as_str()) {
            Some(id) => {
                let i = id.index as usize;
                (id, self.data[i].content.as_str())
            }
            None => {
                let n = self.data.len();
                let id = FileId { index: n as u32 };
                let ghost before = self.entries();
                let ghost name = display_name@;
                let ghost text = value@;
                let mut tmp = TestingCache::new();
                std::mem::swap(&mut tmp, self);
                let TestingCache { mut data } = tmp;
                data.push(Entry { id, name: display_name, content: value });
                proof {
                    assert forall|i: int, j: int| 0 <= i < j < data@.len() implies data@[i].name@ != data@[j].name@ by {
                        if j == data@.len() - 1 {
                            assert(before[i].0 == data@[i].name@);
                        }
                    }
                }
                *self = TestingCache { data };
                assert(self.entries() =~= before.push((name, text)));
                (id, self.data[n].content.as_str())
            }
        }
    }

    /// The name a text was stored under.
    pub fn load_name(&self, id: FileId) -> (n: &str)
        requires
            id.index < self.entries().len(),
        ensures
            n@ == self.entries()[id.index as int].0,
    {
        self.data[id.index as usize].name.as_str()
    }

    /// A stored text.
    pub fn load_source(&self, id: FileId) -> (t: &str)
        requires
            id.index < self.entries().len(),
        ensures
            t@ == self.entries()[id.index as int].1,
    {
        self.data[id.index as usize].content.as_str()
    }
}

} // verus!
