//! Types and the typing context: the types Eta values and statements have,
//! what a name stands for, and the chain of scopes names are looked up in.

use vstd::prelude::*;
use crate::ast::{Decl, Definition, DefinitionKind, Program, Type, TypeKind};

verus! {

// --- Types ---

pub enum Ty {
    Core(CoreTy),
    Tuple(TupleTy),
    Stmt(StmtTy),
}

pub type TupleTy = Vec<CoreTy>;

#[derive(Debug)]
pub enum CoreTy {
    Int,
    Bool,
    Array(Box<CoreTy>),
    /// The type of an expression that failed to typecheck.
    Error,
}

pub enum StmtTy {
    Unit,
    Void,
}

// --- Context ---

/// What a name stands for.
#[derive(Debug)]
pub enum TyCtx {
    Var(CoreTy),
    Ret(TupleTy),
    Fn { from: TupleTy, to: TupleTy },
}

/// A [`TyCtx`] as seen by specifications.
pub enum TyCtxView {
    Var(CoreTy),
    Ret(Seq<CoreTy>),
    Fn { from: Seq<CoreTy>, to: Seq<CoreTy> },
}

impl View for TyCtx {
    type V = TyCtxView;

    open spec fn view(&self) -> TyCtxView {
        match self {
            TyCtx::Var(t) => TyCtxView::Var(*t),
            TyCtx::Ret(ts) => TyCtxView::Ret(ts@),
            TyCtx::Fn { from, to } => TyCtxView::Fn { from: from@, to: to@ },
        }
    }
}

// --- Conversions ---

/// The type a type annotation denotes; array sizes do not matter.
pub open spec fn core_of(k: TypeKind) -> CoreTy
    decreases k,
{
    match k {
        TypeKind::SizedArray { of, .. } => CoreTy::Array(Box::new(core_of(of.kind))),
        TypeKind::UnsizedArray { of } => CoreTy::Array(Box::new(core_of(of.kind))),
        TypeKind::Int => CoreTy::Int,
        TypeKind::Bool => CoreTy::Bool,
    }
}

/// How many array constructors (sized or not) an annotation nests.
pub open spec fn annotation_depth(k: TypeKind) -> nat
    decreases k,
{
    match k {
        TypeKind::SizedArray { of, .. } => 1 + annotation_depth(of.kind),
        TypeKind::UnsizedArray { of } => 1 + annotation_depth(of.kind),
        _ => 0,
    }
}

/// Whether the innermost element of an annotation is `bool`.
pub open spec fn annotation_of_bools(k: TypeKind) -> bool
    decreases k,
{
    match k {
        TypeKind::SizedArray { of, .. } => annotation_of_bools(of.kind),
        TypeKind::UnsizedArray { of } => annotation_of_bools(of.kind),
        TypeKind::Int => false,
        TypeKind::Bool => true,
    }
}

/// How many array layers a type has.
pub open spec fn array_depth(t: CoreTy) -> nat
    decreases t,
{
    match t {
        CoreTy::Array(e) => 1 + array_depth(*e),
        _ => 0,
    }
}

/// The type under all of a type's array layers.
pub open spec fn innermost(t: CoreTy) -> CoreTy
    decreases t,
{
    match t {
        CoreTy::Array(e) => innermost(*e),
        _ => t,
    }
}

/// Every array constructor of an annotation, sized or not, gives exactly
/// one array layer of the type it denotes, around the type its innermost
/// element denotes: `int[][]` is an array of arrays of `int`.
pub proof fn lemma_annotation_layers(k: TypeKind)
    ensures
        array_depth(core_of(k)) == annotation_depth(k),
        innermost(core_of(k)) == (if annotation_of_bools(k) { CoreTy::Bool } else { CoreTy::Int }),
    decreases k,
{
    match k {
        TypeKind::SizedArray { of, .. } => lemma_annotation_layers(of.kind),
        TypeKind::UnsizedArray { of } => lemma_annotation_layers(of.kind),
        _ => {},
    }
}

impl CoreTy {
    /// The type a type annotation denotes.
    pub fn from(value: &TypeKind) -> (t: CoreTy)
        ensures
            t == core_of(*value),
        decreases value,
    {
        match value {
            TypeKind::SizedArray { of, .. } => CoreTy::Array(Box::new(CoreTy::from(&of.kind))),
            TypeKind::UnsizedArray { of } => CoreTy::Array(Box::new(CoreTy::from(&of.kind))),
            TypeKind::Int => CoreTy::Int,
            TypeKind::Bool => CoreTy::Bool,
        }
    }
}

/// The types of a parameter list.
pub open spec fn param_types(params: Seq<Decl>) -> Seq<CoreTy> {
    params.map_values(|d: Decl| core_of(d.typ.kind))
}

/// The types of a list of type annotations.
pub open spec fn types_of(types: Seq<Type>) -> Seq<CoreTy> {
    types.map_values(|t: Type| core_of(t.kind))
}

pub(crate) fn param_types_exec(params: &Vec<Decl>) -> (r: Vec<CoreTy>)
    ensures
        r@ == param_types(params@),
{
    let mut r: Vec<CoreTy> = Vec::new();
    let mut i: usize = 0;
    while i < params.len()
        invariant
            i <= params@.len(),
            r@ == param_types(params@.subrange(0, i as int)),
        decreases params.len() - i,
    {
        r.push(CoreTy::from(&params[i].typ.kind));
        i = i + 1;
        assert(param_types(params@.subrange(0, i as int)) =~= param_types(params@.subrange(0, i - 1)).push(
            core_of(params@[i - 1].typ.kind)));
    }
    assert(params@.subrange(0, params@.len() as int) =~= params@);
    r
}

pub(crate) fn types_of_exec(types: &Vec<Type>) -> (r: Vec<CoreTy>)
    ensures
        r@ == types_of(types@),
{
    let mut r: Vec<CoreTy> = Vec::new();
    let mut i: usize = 0;
    while i < types.len()
        invariant
            i <= types@.len(),
            r@ == types_of(types@.subrange(0, i as int)),
        decreases types.len() - i,
    {
        r.push(CoreTy::from(&types[i].kind));
        i = i + 1;
        assert(types_of(types@.subrange(0, i as int)) =~= types_of(types@.subrange(0, i - 1)).push(
            core_of(types@[i - 1].kind)));
    }
    assert(types@.subrange(0, types@.len() as int) =~= types@);
    r
}

// --- Scopes ---

/// The bindings made by `entries` in order: a later binding of a name
/// replaces an earlier one.
pub open spec fn bindings(entries: Seq<(Seq<char>, TyCtxView)>) -> Map<Seq<char>, TyCtxView>
    decreases entries.len(),
{
    if entries.len() == 0 {
        Map::empty()
    } else {
        bindings(entries.drop_last()).insert(entries.last().0, entries.last().1)
    }
}

/// Looks `name` up in a chain of scopes, innermost (last) first.
pub open spec fn scoped_lookup(scopes: Seq<Map<Seq<char>, TyCtxView>>, name: Seq<char>) -> Option<TyCtxView>
    decreases scopes.len(),
{
    if scopes.len() == 0 {
        None
    } else if scopes.last().contains_key(name) {
        Some(scopes.last()[name])
    } else {
        scoped_lookup(scopes.drop_last(), name)
    }
}

proof fn lemma_bindings_skip(es: Seq<(Seq<char>, TyCtxView)>, i: int, name: Seq<char>)
    requires
        0 <= i <= es.len(),
        forall|k: int| i <= k < es.len() ==> (#[trigger] es[k]).0 != name,
    ensures
        bindings(es).contains_key(name) == bindings(es.subrange(0, i)).contains_key(name),
        bindings(es).contains_key(name) ==> bindings(es)[name] == bindings(es.subrange(0, i))[name],
    decreases es.len() - i,
{
    if i < es.len() {
        assert(es.last() == es[es.len() - 1]);
        assert(es.drop_last() =~= es.subrange(0, es.len() - 1));
        lemma_bindings_skip(es.drop_last(), i, name);
        assert(es.drop_last().subrange(0, i) =~= es.subrange(0, i));
    } else {
        assert(es.subrange(0, i) =~= es);
    }
}

/// The names bound in one scope.
struct Scope {
    entries: Vec<(String, TyCtx)>,
}

impl Scope {
    spec fn entries_view(&self) -> Seq<(Seq<char>, TyCtxView)> {
        self.entries@.map_values(|e: (String, TyCtx)| (e.0@, e.1@))
    }

    spec fn map(&self) -> Map<Seq<char>, TyCtxView> {
        bindings(self.entries_view())
    }

    fn new() -> (s: Scope)
        ensures
            s.map() == Map::<Seq<char>, TyCtxView>::empty(),
    {
        let s = Scope { entries: Vec::new() };
        assert(s.entries_view() =~= Seq::<(Seq<char>, TyCtxView)>::empty());
        s
    }

    fn get(&self, name: &str) -> (r: Option<&TyCtx>)
        ensures
            match r {
                Some(c) => self.map().contains_key(name@) && self.map()[name@] == c@,
                None => !self.map().contains_key(name@),
            },
    {
        let key = String::from_str(name);
        let ghost es = self.entries_view();
        let mut i: usize = self.entries.len();
        while i > 0
            invariant
                i <= self.entries@.len(),
                es == self.entries_view(),
                key@ == name@,
                forall|k: int| i <= k < es.len() ==> (#[trigger] es[k]).0 != name@,
            decreases i,
        {
            if self.entries[i - 1].0 == key {
                proof {
                    lemma_bindings_skip(es, i as int, name@);
                    let pre = es.subrange(0, i as int);
                    assert(pre.drop_last() =~= es.subrange(0, i - 1));
                    assert(pre.last() == es[i - 1]);
                }
                return Some(&self.entries[i - 1].1);
            }
            i = i - 1;
        }
        proof {
            lemma_bindings_skip(es, 0, name@);
            assert(es.subrange(0, 0) =~= Seq::<(Seq<char>, TyCtxView)>::empty());
        }
        None
    }

    fn insert(&mut self, name: String, ctx: TyCtx)
        ensures
            final(self).map() == old(self).map().insert(name@, ctx@),
    {
        let ghost before = self.entries_view();
        let ghost entry = (name@, ctx@);
        self.entries.push((name, ctx));
        assert(self.entries_view() =~= before.push(entry));
        assert(self.entries_view().drop_last() =~= before);
    }
}

/// A chain of scopes: the innermost one and, unless it is the global
/// scope, the chain around it.
pub struct Env {
    outer: Option<Box<Env>>,
    scope: Scope,
}

impl Env {
    /// The scopes, outermost (global) first.
    pub closed spec fn scopes(self) -> Seq<Map<Seq<char>, TyCtxView>>
        decreases self,
    {
        match self.outer {
            Some(o) => o.scopes().push(self.scope.map()),
            None => seq![self.scope.map()],
        }
    }
}

impl View for Env {
    type V = Seq<Map<Seq<char>, TyCtxView>>;

    /// The scopes, outermost (global) first.
    open spec fn view(&self) -> Seq<Map<Seq<char>, TyCtxView>> {
        self.scopes()
    }
}

proof fn lemma_view_nonempty(e: &Env)
    ensures
        e@.len() >= 1,
        e@.last() == e.scope.map(),
        e.outer matches Some(o) ==> e@.drop_last() == o@,
        e.outer is None ==> e@.len() == 1,
{
    match &e.outer {
        Some(o) => {
            assert(e@.drop_last() =~= o@);
        }
        None => {}
    }
}

impl Env {
    /// An environment holding one empty (global) scope.
    pub fn new() -> (e: Env)
        ensures
            e@ == seq![Map::<Seq<char>, TyCtxView>::empty()],
    {
        Env { outer: None, scope: Scope::new() }
    }

    /// Opens a new, empty scope inside this one.
    pub fn new_scope(self) -> (e: Env)
        ensures
            e@ == self@.push(Map::<Seq<char>, TyCtxView>::empty()),
    {
        Env { outer: Some(Box::new(self)), scope: Scope::new() }
    }

    /// What `ident` stands for: its binding in the innermost scope that
    /// binds it.
    pub fn lookup(&self, ident: &str) -> (r: Option<&TyCtx>)
        ensures
            match r {
                Some(c) => scoped_lookup(self@, ident@) == Some(c@),
                None => scoped_lookup(self@, ident@) is None,
            },
        decreases self,
    {
        proof { lemma_view_nonempty(self); }
        match self.scope.get(ident) {
            Some(c) => {
                Some(c)
            },
            None => match &self.outer {
                Some(o) => {
                    let r = o.lookup(ident);
                    r
                },
                None => {
                    assert(self@.drop_last() =~= Seq::<Map<Seq<char>, TyCtxView>>::empty());
                    assert(scoped_lookup(self@.drop_last(), ident@) is None);
                    None
                }
            },
        }
    }

    /// Binds `ident` in the innermost scope, replacing any binding it has
    /// there.
    pub fn insert(&mut self, ident: String, context: TyCtx)
        ensures
            final(self)@ == old(self)@.update(old(self)@.len() - 1, old(self)@.last().insert(ident@, context@)),
    {
        proof { lemma_view_nonempty(&*self); }
        self.scope.insert(ident, context);
        proof {
            lemma_view_nonempty(&*self);
            assert(self@ =~= old(self)@.update(old(self)@.len() - 1, old(self)@.last().insert(ident@, context@)));
        }
    }

    /// The outermost (global) environment.
    pub fn global_env(&self) -> (g: &Env)
        ensures
            g@ == seq![self@[0]],
        decreases self,
    {
        proof { lemma_view_nonempty(self); }
        match &self.outer {
            Some(o) => {
                let g = o.global_env();
                proof { lemma_view_nonempty(&**o); }
                g
            }
            None => self,
        }
    }
}

// --- Laws of scopes ---

/// Looking a name up right after binding it gives what it was bound to.
pub proof fn lemma_lookup_after_insert(scopes: Seq<Map<Seq<char>, TyCtxView>>, name: Seq<char>, ctx: TyCtxView)
    requires
        scopes.len() >= 1,
    ensures
        scoped_lookup(scopes.update(scopes.len() - 1, scopes.last().insert(name, ctx)), name) == Some(ctx),
{
}

/// Binding a name leaves what every other name stands for unchanged.
pub proof fn lemma_insert_leaves_others(scopes: Seq<Map<Seq<char>, TyCtxView>>, name: Seq<char>, ctx: TyCtxView, other: Seq<char>)
    requires
        scopes.len() >= 1,
        other != name,
    ensures
        scoped_lookup(scopes.update(scopes.len() - 1, scopes.last().insert(name, ctx)), other)
            == scoped_lookup(scopes, other),
{
    let s2 = scopes.update(scopes.len() - 1, scopes.last().insert(name, ctx));
    assert(s2.drop_last() =~= scopes.drop_last());
}

/// Opening a scope changes nothing that names stand for.
pub proof fn lemma_new_scope_keeps_lookups(scopes: Seq<Map<Seq<char>, TyCtxView>>, name: Seq<char>)
    ensures
        scoped_lookup(scopes.push(Map::empty()), name) == scoped_lookup(scopes, name),
{
    assert(scopes.push(Map::empty()).drop_last() =~= scopes);
}

/// A binding in an inner scope shadows the outer ones, and leaves the
/// outer scopes, the global one included, as they were.
pub proof fn lemma_inner_binding_shadows(scopes: Seq<Map<Seq<char>, TyCtxView>>, name: Seq<char>, ctx: TyCtxView)
    requires
        scopes.len() >= 1,
    ensures
        ({
            let inner = scopes.push(Map::empty());
            let bound = inner.update(inner.len() - 1, inner.last().insert(name, ctx));
            &&& scoped_lookup(bound, name) == Some(ctx)
            &&& bound.drop_last() == scopes
            &&& bound[0] == scopes[0]
        }),
{
    let inner = scopes.push(Map::empty());
    let bound = inner.update(inner.len() - 1, inner.last().insert(name, ctx));
    assert(bound.drop_last() =~= scopes);
}

// --- Collecting the global scope ---

/// The binding a top-level definition makes, if any.
pub open spec fn definition_binding(d: Definition) -> Option<(Seq<char>, TyCtxView)> {
    match d.kind {
        DefinitionKind::Method(m) => Some((m.id.sym@, TyCtxView::Fn { from: param_types(m.params@), to: types_of(m.ret_types@) })),
        DefinitionKind::GlobDecl(g) => Some((g.id.sym@, TyCtxView::Var(core_of(g.typ.kind)))),
        DefinitionKind::Error => None,
    }
}

/// The global scope of a program: every method and global, in order, a
/// later definition of a name replacing an earlier one.
pub open spec fn global_bindings(defs: Seq<Definition>) -> Map<Seq<char>, TyCtxView>
    decreases defs.len(),
{
    if defs.len() == 0 {
        Map::empty()
    } else {
        match definition_binding(defs.last()) {
            Some((name, ctx)) => global_bindings(defs.drop_last()).insert(name, ctx),
            None => global_bindings(defs.drop_last()),
        }
    }
}

/// Collects the global scope of a program.
pub fn collect(prog: &Program) -> (env: Env)
    ensures
        env@ == seq![global_bindings(prog.definitions@)],
{
    let mut env = Env::new();
    let defs = &prog.definitions;
    let mut i: usize = 0;
    while i < defs.len()
        invariant
            i <= defs@.len(),
            env@ == seq![global_bindings(defs@.subrange(0, i as int))],
        decreases defs.len() - i,
    {
        let d = &defs[i];
        proof {
            assert(defs@.subrange(0, i + 1).drop_last() =~= defs@.subrange(0, i as int));
            assert(defs@.subrange(0, i + 1).last() == defs@[i as int]);
        }
        match &d.kind {
            DefinitionKind::Method(m) => {
                let from = param_types_exec(&m.params);
                let to = types_of_exec(&m.ret_types);
                env.insert(m.id.sym.clone(), TyCtx::Fn { from, to });
            }
            DefinitionKind::GlobDecl(g) => {
                env.insert(g.id.sym.clone(), TyCtx::Var(CoreTy::from(&g.typ.kind)));
            }
            DefinitionKind::Error => {}
        }
        i = i + 1;
        assert(env@ =~= seq![global_bindings(defs@.subrange(0, i as int))]);
    }
    assert(defs@.subrange(0, defs@.len() as int) =~= defs@);
    env
}

} // verus!
