//! Annotation contexts for printing syntax trees: what extra text, if any,
//! is attached to the node with a given id.

use vstd::prelude::*;
use crate::cache::NodeId;

verus! {

/// The annotation `@<text>` made from what a lookup gave, if it gave
/// anything.
pub open spec fn annotation_of(found: Option<String>, r: Option<String>) -> bool {
    match found {
        Some(s) => r matches Some(a) && a@ == seq!['@'] + s@,
        None => r is None,
    }
}

/// The context that annotates nothing; plain printing goes through it.
#[derive(Debug, Clone, Copy)]
pub struct Plain;

impl Plain {
    /// No node is annotated.
    pub fn annotate(&self, _node_id: NodeId) -> (r: Option<String>)
        ensures
            r is None,
    {
        None
    }
}

/// Annotates every node whose span the lookup knows with `@<span>`.
pub struct SpanCtx<F> {
    lookup: F,
}

impl<F: Fn(NodeId) -> Option<String>> SpanCtx<F> {
    /// The lookup this context consults.
    pub closed spec fn lookup(&self) -> F {
        self.lookup
    }

    pub fn new(lookup: F) -> (c: SpanCtx<F>)
        ensures
            c.lookup() == lookup,
    {
        SpanCtx { lookup }
    }

    /// `@<span>` for a node whose span the lookup gives, nothing otherwise.
    pub fn annotate(&self, node_id: NodeId) -> (r: Option<String>)
        requires
            call_requires(self.lookup(), (node_id,)),
        ensures
            exists|found: Option<String>| call_ensures(self.lookup(), (node_id,), found) && #[trigger] annotation_of(found, r),
    {
        let found = (self.lookup)(node_id);
        let r = match &found {
            Some(s) => {
                let mut a = String::from_str("@");
                a.append(s.as_str());
                proof { reveal_strlit("@"); }
                assert(a@ =~= seq!['@'] + s@);
                Some(a)
            }
            None => None,
        };
        assert(annotation_of(found, r));
        r
    }
}

} // verus!
