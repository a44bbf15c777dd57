//! The typing context of declarations: nested scopes of variables and
//! methods, and the return type in force, with the diagnostics for names
//! declared twice in one scope.

use vstd::prelude::*;
use crate::ast::{GlobDecl, Method, MethodDecl};
use crate::diagnostic::{DiagCtxt, Diagnostic, ErrorGuaranteed, Level};
use crate::span::Span;
use crate::typecheck::{core_of, param_types, types_of, CoreTy, TupleTy};

verus! {

/// The type of a method: its parameter types and its result types.
#[derive(Debug)]
pub struct FnTy {
    pub from: TupleTy,
    pub to: TupleTy,
}

#[derive(Debug)]
pub struct VarEntry {
    pub ty: CoreTy,
    pub declared: Span,
}

#[derive(Debug)]
pub struct FnEntry {
    pub ty: FnTy,
    pub declared: Span,
}

#[derive(Debug)]
pub struct RetEntry {
    pub ty: TupleTy,
    pub declared: Span,
}

/// A method type as seen by specifications.
pub struct FnTyView {
    pub from: Seq<CoreTy>,
    pub to: Seq<CoreTy>,
}

impl View for FnTy {
    type V = FnTyView;

    open spec fn view(&self) -> FnTyView {
        FnTyView { from: self.from@, to: self.to@ }
    }
}

/// The binding of `name` in the innermost of `scopes` (the last) that binds
/// it.
pub open spec fn innermost<V>(scopes: Seq<Map<Seq<char>, V>>, name: Seq<char>) -> Option<V>
    decreases scopes.len(),
{
    if scopes.len() == 0 {
        None
    } else if scopes.last().contains_key(name) {
        Some(scopes.last()[name])
    } else {
        innermost(scopes.drop_last(), name)
    }
}

/// The return type in force: that of the innermost scope declaring one.
pub open spec fn innermost_ret(rets: Seq<Option<(Seq<CoreTy>, Span)>>) -> Option<(Seq<CoreTy>, Span)>
    decreases rets.len(),
{
    if rets.len() == 0 {
        None
    } else if rets.last() is Some {
        rets.last()
    } else {
        innermost_ret(rets.drop_last())
    }
}

/// The entries of one scope, by name.
pub open spec fn entries_map<E, V>(entries: Seq<(String, E)>, view: spec_fn(E) -> V) -> Map<Seq<char>, V>
    decreases entries.len(),
{
    if entries.len() == 0 {
        Map::empty()
    } else {
        entries_map(entries.drop_last(), view).insert(entries.last().0@, view(entries.last().1))
    }
}

/// The names bound in one scope, each at most once.
#[derive(Debug)]
pub struct Scope {
    vars: Vec<(String, VarEntry)>,
    fns: Vec<(String, FnEntry)>,
    ret: Option<RetEntry>,
}

/// A variable entry as seen by specifications.
pub open spec fn var_view(e: VarEntry) -> (CoreTy, Span) {
    (e.ty, e.declared)
}

/// A method entry as seen by specifications.
pub open spec fn fn_view(e: FnEntry) -> (FnTyView, Span) {
    (e.ty@, e.declared)
}

proof fn lemma_entries_map_absent<E, V>(entries: Seq<(String, E)>, view: spec_fn(E) -> V, name: Seq<char>)
    requires
        forall|k: int| 0 <= k < entries.len() ==> (#[trigger] entries[k]).0@ != name,
    ensures
        !entries_map(entries, view).contains_key(name),
    decreases entries.len(),
{
    if entries.len() > 0 {
        lemma_entries_map_absent(entries.drop_last(), view, name);
    }
}

proof fn lemma_entries_map_at<E, V>(entries: Seq<(String, E)>, view: spec_fn(E) -> V, i: int)
    requires
        0 <= i < entries.len(),
        forall|k: int| 0 <= k < entries.len() && k != i ==> (#[trigger] entries[k]).0@ != entries[i].0@,
    ensures
        entries_map(entries, view).contains_key(entries[i].0@),
        entries_map(entries, view)[entries[i].0@] == view(entries[i].1),
    decreases entries.len(),
{
    if i < entries.len() - 1 {
        lemma_entries_map_at(entries.drop_last(), view, i);
    }
}

impl Scope {
    pub closed spec fn var_map(&self) -> Map<Seq<char>, (CoreTy, Span)> {
        entries_map(self.vars@, |e: VarEntry| var_view(e))
    }

    pub closed spec fn fn_map(&self) -> Map<Seq<char>, (FnTyView, Span)> {
        entries_map(self.fns@, |e: FnEntry| fn_view(e))
    }

    pub closed spec fn ret_view(&self) -> Option<(Seq<CoreTy>, Span)> {
        match self.ret {
            Some(r) => Some((r.ty@, r.declared)),
            None => None,
        }
    }

    #[verifier::type_invariant]
    spec fn distinct(self) -> bool {
        &&& forall|i: int, j: int| 0 <= i < j < self.vars@.len() ==> self.vars@[i].0@ != self.vars@[j].0@
        &&& forall|i: int, j: int| 0 <= i < j < self.fns@.len() ==> self.fns@[i].0@ != self.fns@[j].0@
    }

    fn new() -> (s: Scope)
        ensures
            s.var_map() == Map::<Seq<char>, (CoreTy, Span)>::empty(),
            s.fn_map() == Map::<Seq<char>, (FnTyView, Span)>::empty(),
            s.ret_view() is None,
    {
        Scope { vars: Vec::new(), fns: Vec::new(), ret: None }
    }

    fn add_var(&mut self, name: String, e: VarEntry)
        requires
            !old(self).var_map().contains_key(name@),
        ensures
            final(self).var_map() == old(self).var_map().insert(name@, var_view(e)),
            final(self).fn_map() == old(self).fn_map(),
            final(self).ret_view() == old(self).ret_view(),
            final(self).vars@.len() == old(self).vars@.len() + 1,
            final(self).vars@.last().1 == e,
    {
        proof { use_type_invariant(&*self); }
        let ghost key = name@;
        let ghost entry = e;
        let mut tmp = Scope::new();
        std::mem::swap(&mut tmp, self);
        let Scope { mut vars, fns, ret } = tmp;
        let ghost before = vars@;
        vars.push((name, e));
        proof {
            assert(vars@.drop_last() =~= before);
            assert forall|i: int, j: int| 0 <= i < j < vars@.len() implies vars@[i].0@ != vars@[j].0@ by {
                if j == vars@.len() - 1 && vars@[i].0@ == key {
                    assert forall|k: int| 0 <= k < before.len() && k != i implies (#[trigger] before[k]).0@ != before[i].0@ by {}
                    lemma_entries_map_at(before, |x: VarEntry| var_view(x), i);
                }
            }
        }
        *self = Scope { vars, fns, ret };
    }

    fn add_fn(&mut self, name: String, e: FnEntry)
        requires
            !old(self).fn_map().contains_key(name@),
        ensures
            final(self).fn_map() == old(self).fn_map().insert(name@, fn_view(e)),
            final(self).var_map() == old(self).var_map(),
            final(self).ret_view() == old(self).ret_view(),
            final(self).fns@.len() == old(self).fns@.len() + 1,
            final(self).fns@.last().1 == e,
    {
        proof { use_type_invariant(&*self); }
        let ghost key = name@;
        let mut tmp = Scope::new();
        std::mem::swap(&mut tmp, self);
        let Scope { vars, mut fns, ret } = tmp;
        let ghost before = fns@;
        fns.push((name, e));
        proof {
            assert(fns@.drop_last() =~= before);
            assert forall|i: int, j: int| 0 <= i < j < fns@.len() implies fns@[i].0@ != fns@[j].0@ by {
                if j == fns@.len() - 1 && fns@[i].0@ == key {
                    assert forall|k: int| 0 <= k < before.len() && k != i implies (#[trigger] before[k]).0@ != before[i].0@ by {}
                    lemma_entries_map_at(before, |x: FnEntry| fn_view(x), i);
                }
            }
        }
        *self = Scope { vars, fns, ret };
    }

    fn find_var(&self, name: &str) -> (r: Option<usize>)
        ensures
            match r {
                Some(i) => i < self.vars@.len() && self.vars@[i as int].0@ == name@
                    && self.var_map().contains_key(name@) && self.var_map()[name@] == var_view(self.vars@[i as int].1),
                None => !self.var_map().contains_key(name@),
            },
    {
        proof { use_type_invariant(self); }
        let key = String::from_str(name);
        let mut i: usize = 0;
        while i < self.vars.len()
            invariant
                i <= self.vars@.len(),
                key@ == name@,
                forall|k: int| 0 <= k < i ==> (#[trigger] self.vars@[k]).0@ != name@,
            decreases self.vars.len() - i,
        {
            if self.vars[i].0 == key {
                proof {
                    use_type_invariant(self);
                    assert forall|k: int| 0 <= k < self.vars@.len() && k != i implies (#[trigger] self.vars@[k]).0@ != self.vars@[i as int].0@ by {
                        if k < i {
                        } else {
                        }
                    }
                    lemma_entries_map_at(self.vars@, |e: VarEntry| var_view(e), i as int);
                }
                return Some(i);
            }
            i = i + 1;
        }
        proof { lemma_entries_map_absent(self.vars@, |e: VarEntry| var_view(e), name@); }
        None
    }

    fn find_fn(&self, name: &str) -> (r: Option<usize>)
        ensures
            match r {
                Some(i) => i < self.fns@.len() && self.fns@[i as int].0@ == name@
                    && self.fn_map().contains_key(name@) && self.fn_map()[name@] == fn_view(self.fns@[i as int].1),
                None => !self.fn_map().contains_key(name@),
            },
    {
        proof { use_type_invariant(self); }
        let key = String::from_str(name);
        let mut i: usize = 0;
        while i < self.fns.len()
            invariant
                i <= self.fns@.len(),
                key@ == name@,
                forall|k: int| 0 <= k < i ==> (#[trigger] self.fns@[k]).0@ != name@,
            decreases self.fns.len() - i,
        {
            if self.fns[i].0 == key {
                proof {
                    use_type_invariant(self);
                    assert forall|k: int| 0 <= k < self.fns@.len() && k != i implies (#[trigger] self.fns@[k]).0@ != self.fns@[i as int].0@ by {
                        if k < i {
                        } else {
                        }
                    }
                    lemma_entries_map_at(self.fns@, |e: FnEntry| fn_view(e), i as int);
                }
                return Some(i);
            }
            i = i + 1;
        }
        proof { lemma_entries_map_absent(self.fns@, |e: FnEntry| fn_view(e), name@); }
        None
    }
}

/// The scopes of a typing context, the global one first; there is always
/// at least one.
#[derive(Debug)]
pub struct Scopes {
    scopes: Vec<Scope>,
}

impl Scopes {
    #[verifier::type_invariant]
    spec fn nonempty(self) -> bool {
        self.scopes@.len() >= 1
    }

    /// The variables of each scope, the global one first.
    pub closed spec fn vars(&self) -> Seq<Map<Seq<char>, (CoreTy, Span)>> {
        self.scopes@.map_values(|s: Scope| s.var_map())
    }

    /// The methods of each scope, the global one first.
    pub closed spec fn fns(&self) -> Seq<Map<Seq<char>, (FnTyView, Span)>> {
        self.scopes@.map_values(|s: Scope| s.fn_map())
    }

    /// The return type declared in each scope, if any.
    pub closed spec fn rets(&self) -> Seq<Option<(Seq<CoreTy>, Span)>> {
        self.scopes@.map_values(|s: Scope| s.ret_view())
    }

    /// Only the global scope, empty.
    pub fn new() -> (s: Scopes)
        ensures
            s.vars() == seq![Map::<Seq<char>, (CoreTy, Span)>::empty()],
            s.fns() == seq![Map::<Seq<char>, (FnTyView, Span)>::empty()],
            s.rets() == seq![None::<(Seq<CoreTy>, Span)>],
    {
        let mut v: Vec<Scope> = Vec::new();
        v.push(Scope::new());
        let s = Scopes { scopes: v };
        assert(s.vars() =~= seq![Map::<Seq<char>, (CoreTy, Span)>::empty()]);
        assert(s.fns() =~= seq![Map::<Seq<char>, (FnTyView, Span)>::empty()]);
        assert(s.rets() =~= seq![None::<(Seq<CoreTy>, Span)>]);
        s
    }

    /// Opens an empty scope.
    pub fn push(&mut self)
        ensures
            final(self).vars() == old(self).vars().push(Map::empty()),
            final(self).fns() == old(self).fns().push(Map::empty()),
            final(self).rets() == old(self).rets().push(None),
    {
        proof { use_type_invariant(&*self); }
        let mut tmp = Scopes::new();
        std::mem::swap(&mut tmp, self);
        let Scopes { mut scopes } = tmp;
        scopes.push(Scope::new());
        *self = Scopes { scopes };
        assert(self.vars() =~= old(self).vars().push(Map::empty()));
        assert(self.fns() =~= old(self).fns().push(Map::empty()));
        assert(self.rets() =~= old(self).rets().push(None));
    }

    /// Closes the innermost scope; the global scope is never closed.
    pub fn pop(&mut self)
        requires
            old(self).vars().len() > 1,
        ensures
            final(self).vars() == old(self).vars().drop_last(),
            final(self).fns() == old(self).fns().drop_last(),
            final(self).rets() == old(self).rets().drop_last(),
    {
        let mut tmp = Scopes::new();
        std::mem::swap(&mut tmp, self);
        let Scopes { mut scopes } = tmp;
        scopes.pop();
        *self = Scopes { scopes };
        assert(self.vars() =~= old(self).vars().drop_last());
        assert(self.fns() =~= old(self).fns().drop_last());
        assert(self.rets() =~= old(self).rets().drop_last());
    }

    /// Declares the variable `binding` in the innermost scope: its new
    /// entry, or the entry it already has there (`Err`).
    pub fn declare_var(&mut self, declaration: Span, binding: String, ty: CoreTy) -> (r: Result<&VarEntry, &VarEntry>)
        ensures
            final(self).fns() == old(self).fns(),
            final(self).rets() == old(self).rets(),
            old(self).vars().last().contains_key(binding@) ==> {
                &&& final(self).vars() == old(self).vars()
                &&& r matches Err(e) && var_view(*e) == old(self).vars().last()[binding@]
            },
            !old(self).vars().last().contains_key(binding@) ==> {
                &&& final(self).vars() == old(self).vars().update(old(self).vars().len() - 1,
                    old(self).vars().last().insert(binding@, (ty, declaration)))
                &&& r matches Ok(e) && e.ty == ty && e.declared == declaration
            },
    {
        proof { use_type_invariant(&*self); }
        let n = self.scopes.len();
        assert(self.vars().last() == self.scopes@[n - 1].var_map());
        match self.scopes[n - 1].find_var(binding.as_str()) {
            Some(k) => Err(&self.scopes[n - 1].vars[k].1),
            None => {
                let ghost ty0 = ty;
                let mut tmp = Scopes::new();
                std::mem::swap(&mut tmp, self);
                let Scopes { mut scopes } = tmp;
                let ghost before = scopes@;
                let mut current = scopes.pop().unwrap();
                current.add_var(binding, VarEntry { ty, declared: declaration });
                scopes.push(current);
                *self = Scopes { scopes };
                proof {
                    assert(self.vars() =~= old(self).vars().update(n - 1, old(self).vars().last().insert(binding@, (ty0, declaration))));
                    assert(self.fns() =~= old(self).fns());
                    assert(self.rets() =~= old(self).rets());
                }
                let m = self.scopes[n - 1].vars.len() - 1;
                Ok(&self.scopes[n - 1].vars[m].1)
            }
        }
    }

    /// Declares the method `binding` in the innermost scope: its new entry,
    /// or the entry it already has there (`Err`).
    pub fn declare_fn(&mut self, declaration: Span, binding: String, ty: FnTy) -> (r: Result<&FnEntry, &FnEntry>)
        ensures
            final(self).vars() == old(self).vars(),
            final(self).rets() == old(self).rets(),
            old(self).fns().last().contains_key(binding@) ==> {
                &&& final(self).fns() == old(self).fns()
                &&& r matches Err(e) && fn_view(*e) == old(self).fns().last()[binding@]
            },
            !old(self).fns().last().contains_key(binding@) ==> {
                &&& final(self).fns() == old(self).fns().update(old(self).fns().len() - 1,
                    old(self).fns().last().insert(binding@, (ty@, declaration)))
                &&& r matches Ok(e) && e.ty@ == ty@ && e.declared == declaration
            },
    {
        proof { use_type_invariant(&*self); }
        let n = self.scopes.len();
        assert(self.fns().last() == self.scopes@[n - 1].fn_map());
        match self.scopes[n - 1].find_fn(binding.as_str()) {
            Some(k) => Err(&self.scopes[n - 1].fns[k].1),
            None => {
                let ghost tyv = ty@;
                let mut tmp = Scopes::new();
                std::mem::swap(&mut tmp, self);
                let Scopes { mut scopes } = tmp;
                let mut current = scopes.pop().unwrap();
                current.add_fn(binding, FnEntry { ty, declared: declaration });
                scopes.push(current);
                *self = Scopes { scopes };
                proof {
                    assert(self.fns() =~= old(self).fns().update(n - 1, old(self).fns().last().insert(binding@, (tyv, declaration))));
                    assert(self.vars() =~= old(self).vars());
                    assert(self.rets() =~= old(self).rets());
                }
                let m = self.scopes[n - 1].fns.len() - 1;
                Ok(&self.scopes[n - 1].fns[m].1)
            }
        }
    }

    /// Sets the return type in force in the innermost scope.
    pub fn declare_ret_type(&mut self, declaration: Span, ty: TupleTy)
        ensures
            final(self).vars() == old(self).vars(),
            final(self).fns() == old(self).fns(),
            final(self).rets() == old(self).rets().update(old(self).rets().len() - 1, Some((ty@, declaration))),
    {
        proof { use_type_invariant(&*self); }
        let ghost tyv = ty@;
        let n = self.scopes.len();
        let mut tmp = Scopes::new();
        std::mem::swap(&mut tmp, self);
        let Scopes { mut scopes } = tmp;
        let current = scopes.pop().unwrap();
        proof { use_type_invariant(&current); }
        let Scope { vars, fns, ret: _ } = current;
        scopes.push(Scope { vars, fns, ret: Some(RetEntry { ty, declared: declaration }) });
        *self = Scopes { scopes };
        proof {
            assert(self.rets() =~= old(self).rets().update(n - 1, Some((tyv, declaration))));
            assert(self.vars() =~= old(self).vars());
            assert(self.fns() =~= old(self).fns());
        }
    }

    /// The variable `bind` names: its entry in the innermost scope that
    /// declares it.
    pub fn lookup_var(&self, bind: &str) -> (r: Option<&VarEntry>)
        ensures
            match r {
                Some(e) => innermost(self.vars(), bind@) == Some(var_view(*e)),
                None => innermost(self.vars(), bind@) is None,
            },
    {
        let mut i: usize = self.scopes.len();
        assert(self.vars().subrange(0, i as int) =~= self.vars());
        while i > 0
            invariant
                i <= self.scopes@.len(),
                innermost(self.vars(), bind@) == innermost(self.vars().subrange(0, i as int), bind@),
            decreases i,
        {
            let ghost pre = self.vars().subrange(0, i as int);
            assert(pre.last() == self.scopes@[i - 1].var_map());
            assert(pre.drop_last() =~= self.vars().subrange(0, i - 1));
            match self.scopes[i - 1].find_var(bind) {
                Some(k) => return Some(&self.scopes[i - 1].vars[k].1),
                None => {}
            }
            i = i - 1;
        }
        None
    }

    /// The method `bind` names: its entry in the innermost scope that
    /// declares it.
    pub fn lookup_fn(&self, bind: &str) -> (r: Option<&FnEntry>)
        ensures
            match r {
                Some(e) => innermost(self.fns(), bind@) == Some(fn_view(*e)),
                None => innermost(self.fns(), bind@) is None,
            },
    {
        let mut i: usize = self.scopes.len();
        assert(self.fns().subrange(0, i as int) =~= self.fns());
        while i > 0
            invariant
                i <= self.scopes@.len(),
                innermost(self.fns(), bind@) == innermost(self.fns().subrange(0, i as int), bind@),
            decreases i,
        {
            let ghost pre = self.fns().subrange(0, i as int);
            assert(pre.last() == self.scopes@[i - 1].fn_map());
            assert(pre.drop_last() =~= self.fns().subrange(0, i - 1));
            match self.scopes[i - 1].find_fn(bind) {
                Some(k) => return Some(&self.scopes[i - 1].fns[k].1),
                None => {}
            }
            i = i - 1;
        }
        None
    }

    /// The return type in force.
    pub fn lookup_ret(&self) -> (r: Option<&RetEntry>)
        ensures
            match r {
                Some(e) => innermost_ret(self.rets()) == Some((e.ty@, e.declared)),
                None => innermost_ret(self.rets()) is None,
            },
    {
        let mut i: usize = self.scopes.len();
        assert(self.rets().subrange(0, i as int) =~= self.rets());
        while i > 0
            invariant
                i <= self.scopes@.len(),
                innermost_ret(self.rets()) == innermost_ret(self.rets().subrange(0, i as int)),
            decreases i,
        {
            let ghost pre = self.rets().subrange(0, i as int);
            assert(pre.last() == self.scopes@[i - 1].ret_view());
            assert(pre.drop_last() =~= self.rets().subrange(0, i - 1));
            match &self.scopes[i - 1].ret {
                Some(e) => return Some(e),
                None => {}
            }
            i = i - 1;
        }
        None
    }
}

/// The message for a name declared twice in one scope.
pub open spec fn already_declared_message(thing: Seq<char>, name: Seq<char>) -> Seq<char> {
    thing + seq![' '] + name + " already exists"@
}

/// The error for a `thing` (`method` or `variable`) named `name` that is
/// already declared in the same scope, at `first`: it points at the first
/// declaration.
pub fn already_declared(thing: &str, name: &str, first: Span) -> (d: Diagnostic)
    ensures
        d.level == Level::Error,
        d.loc == Some(first),
        d.message@ == already_declared_message(thing@, name@),
        d.labels@.len() == 1,
        d.labels@[0].0 == first,
        d.labels@[0].1@ == thing@ + " first defined here"@,
{
    let mut m = String::from_str(thing);
    m.append(" ");
    m.append(name);
    m.append(" already exists");
    let mut label = String::from_str(thing);
    label.append(" first defined here");
    proof { reveal_strlit(" "); }
    Diagnostic::error(first, m).with_primary_label(label)
}

/// The typing context of declarations.
#[derive(Debug)]
pub struct Env {
    pub scopes: Scopes,
}

impl Env {
    /// A context with only the (empty) global scope.
    pub fn new() -> (e: Env)
        ensures
            e.scopes.vars() == seq![Map::<Seq<char>, (CoreTy, Span)>::empty()],
            e.scopes.fns() == seq![Map::<Seq<char>, (FnTyView, Span)>::empty()],
            e.scopes.rets() == seq![None::<(Seq<CoreTy>, Span)>],
    {
        Env { scopes: Scopes::new() }
    }
}

/// What declaring a method named `name` of type `ty` at `span` does: a name
/// already declared in the innermost scope is reported (pointing at its
/// first declaration) and nothing changes; otherwise the method is declared
/// there.
pub open spec fn declares_method(before: Env, after: Env, d0: Seq<Diagnostic>, d1: Seq<Diagnostic>, name: Seq<char>,
    ty: FnTyView, span: Span, failed: bool) -> bool {
    &&& after.scopes.vars() == before.scopes.vars()
    &&& after.scopes.rets() == before.scopes.rets()
    &&& if before.scopes.fns().last().contains_key(name) {
        &&& failed
        &&& after.scopes.fns() == before.scopes.fns()
        &&& d1.len() == d0.len() + 1
        &&& d1.drop_last() =~= d0
        &&& d1.last().level == Level::Error
        &&& d1.last().loc == Some(before.scopes.fns().last()[name].1)
        &&& d1.last().message@ == already_declared_message("method"@, name)
    } else {
        &&& !failed
        &&& d1 == d0
        &&& after.scopes.fns() == before.scopes.fns().update(before.scopes.fns().len() - 1,
            before.scopes.fns().last().insert(name, (ty, span)))
    }
}

fn declare_method<'e>(env: &'e mut Env, dcx: &mut DiagCtxt, span: Span, id: &String, ty: FnTy) -> (r: Result<&'e FnTy, ErrorGuaranteed>)
    ensures
        declares_method(*old(env), *final(env), old(dcx).emitted(), final(dcx).emitted(), id@, ty@, span, r is Err),
        r matches Ok(t) ==> t@ == ty@,
{
    let ghost tyv = ty@;
    match env.scopes.declare_fn(span, id.clone(), ty) {
        Ok(entry) => Ok(&entry.ty),
        Err(entry) => {
            let d = already_declared("method", id.as_str(), entry.declared);
            proof { reveal_strlit("method"); }
            Err(dcx.emit_error(d))
        }
    }
}

impl MethodDecl {
    /// Declares this interface method in the innermost scope of `env`;
    /// reports it when the name is taken there.
    pub fn typecheck<'e>(&self, env: &'e mut Env, dcx: &mut DiagCtxt) -> (r: Result<&'e FnTy, ErrorGuaranteed>)
        ensures
            declares_method(*old(env), *final(env), old(dcx).emitted(), final(dcx).emitted(), self.id.sym@,
                FnTyView { from: param_types(self.params@), to: types_of(self.ret_types@) }, self.span, r is Err),
            r matches Ok(t) ==> t@ == (FnTyView { from: param_types(self.params@), to: types_of(self.ret_types@) }),
    {
        let ty = FnTy { from: crate::typecheck::param_types_exec(&self.params), to: crate::typecheck::types_of_exec(&self.ret_types) };
        declare_method(env, dcx, self.span, &self.id.sym, ty)
    }
}

impl Method {
    /// Declares this method in the innermost scope of `env`; reports it
    /// when the name is taken there.
    pub fn typecheck<'e>(&self, env: &'e mut Env, dcx: &mut DiagCtxt) -> (r: Result<&'e FnTy, ErrorGuaranteed>)
        ensures
            declares_method(*old(env), *final(env), old(dcx).emitted(), final(dcx).emitted(), self.id.sym@,
                FnTyView { from: param_types(self.params@), to: types_of(self.ret_types@) }, self.span, r is Err),
            r matches Ok(t) ==> t@ == (FnTyView { from: param_types(self.params@), to: types_of(self.ret_types@) }),
    {
        let ty = FnTy { from: crate::typecheck::param_types_exec(&self.params), to: crate::typecheck::types_of_exec(&self.ret_types) };
        declare_method(env, dcx, self.span, &self.id.sym, ty)
    }
}

impl GlobDecl {
    /// Declares this global variable in the innermost scope of `env`;
    /// reports it when the name is taken there.
    pub fn typecheck(&self, env: &mut Env, dcx: &mut DiagCtxt) -> (r: Result<(), ErrorGuaranteed>)
        ensures
            final(env).scopes.fns() == old(env).scopes.fns(),
            final(env).scopes.rets() == old(env).scopes.rets(),
            old(env).scopes.vars().last().contains_key(self.id.sym@) ==> {
                &&& r is Err
                &&& final(env).scopes.vars() == old(env).scopes.vars()
                &&& final(dcx).emitted().len() == old(dcx).emitted().len() + 1
                &&& final(dcx).emitted().drop_last() == old(dcx).emitted()
                &&& final(dcx).emitted().last().level == Level::Error
                &&& final(dcx).emitted().last().loc == Some(old(env).scopes.vars().last()[self.id.sym@].1)
                &&& final(dcx).emitted().last().message@ == already_declared_message("variable"@, self.id.sym@)
            },
            !old(env).scopes.vars().last().contains_key(self.id.sym@) ==> {
                &&& r is Ok
                &&& final(dcx).emitted() == old(dcx).emitted()
                &&& final(env).scopes.vars() == old(env).scopes.vars().update(old(env).scopes.vars().len() - 1,
                    old(env).scopes.vars().last().insert(self.id.sym@, (core_of(self.typ.kind), self.span)))
            },
    {
        let ty = CoreTy::from(&self.typ.kind);
        match env.scopes.declare_var(self.span, self.id.sym.clone(), ty) {
            Ok(_) => Ok(()),
            Err(entry) => {
                let d = already_declared("variable", self.id.sym.as_str(), entry.declared);
                proof { reveal_strlit("variable"); }
                Err(dcx.emit_error(d))
            }
        }
    }
}

/// A name declared in a scope opened for it is what the name stands for
/// until the scope is closed; closing it gives every name back what it
/// stood for before.
pub proof fn lemma_closing_a_scope_undoes_it<V>(scopes: Seq<Map<Seq<char>, V>>, name: Seq<char>, v: V, other: Seq<char>)
    ensures
        ({
            let opened = scopes.push(Map::empty());
            let declared = opened.update(opened.len() - 1, opened.last().insert(name, v));
            &&& innermost(declared, name) == Some(v)
            &&& declared.drop_last() == scopes
            &&& innermost(declared.drop_last(), other) == innermost(scopes, other)
        }),
{
    let opened = scopes.push(Map::empty());
    let declared = opened.update(opened.len() - 1, opened.last().insert(name, v));
    assert(declared.drop_last() =~= scopes);
}

/// Declaring a name in the innermost scope makes it stand for the new
/// entry, and leaves every other name as it was.
pub proof fn lemma_declared_is_found<V>(scopes: Seq<Map<Seq<char>, V>>, name: Seq<char>, v: V, other: Seq<char>)
    requires
        scopes.len() >= 1,
    ensures
        ({
            let declared = scopes.update(scopes.len() - 1, scopes.last().insert(name, v));
            &&& innermost(declared, name) == Some(v)
            &&& other != name ==> innermost(declared, other) == innermost(scopes, other)
        }),
{
    let declared = scopes.update(scopes.len() - 1, scopes.last().insert(name, v));
    assert(declared.drop_last() =~= scopes.drop_last());
}

} // verus!
