use vstd::prelude::*;

use crate::errors::Error;
use crate::ids::{NamespaceId, ScopeId, SourceRange, StringIndex};
use crate::namespace::{NamespaceMap, SymbolGetResult, is_ancestor, lookup_result};
use crate::syms::sym_map::{BoundedGeneric, ClosureId, Generic, GenericKind, SymbolId, SymbolMap};
use crate::syms::ty::Sym;

verus! {

/// One level of lexical scope, linked to the scope that encloses it.
#[derive(Debug)]
pub struct Scope {
    pub parent: Option<ScopeId>,
    pub kind: ScopeKind,
}

#[derive(Debug)]
pub enum ScopeKind {
    ImplicitNamespace(NamespaceId),
    QualifiedNamespace(NamespaceId),
    QualifiedTypeNamespace(Sym, Option<NamespaceId>),
    ImplicitTrait(SymbolId),
    /// Names outside this point are not visible, but for the root's.
    NamespaceFence,
    AliasDecl(StringIndex, Generic),
    VariableScope(VariableScope),
    Generics(GenericsScope),
    Loop,
    Function(FunctionScope),
    Closure(ClosureId),
    Root,
}

/// All scopes, indexed by `ScopeId`.
pub struct ScopeMap {
    pub map: Vec<Scope>,
}

/// A variable binding.
#[derive(Clone, Copy, Debug, PartialEq, Eq, Structural)]
pub struct VariableScope {
    pub name: StringIndex,
    pub ty: Sym,
    pub mutable: bool,
}

/// The generic parameters in scope, with the types they stand for.
#[derive(Debug)]
pub struct GenericsScope {
    pub generics: Vec<(BoundedGeneric, Sym)>,
}

/// The function being checked: its return type and where that was written.
#[derive(Clone, Copy, Debug, PartialEq, Eq, Structural)]
pub struct FunctionScope {
    pub ret: Sym,
    pub ret_source: SourceRange,
}

impl ScopeMap {
    /// Every scope's parent comes before it.
    pub open spec fn wf(&self) -> bool {
        forall|i: int| 0 <= i < self.map@.len() ==> match #[trigger] self.map@[i].parent {
            Some(p) => p.0 < i,
            None => true,
        }
    }

    /// `s` may start a walk: its parent, if any, is a scope of the map.
    pub open spec fn can_start(&self, s: Scope) -> bool {
        match s.parent {
            Some(p) => p.0 < self.map@.len(),
            None => true,
        }
    }

    /// The scope numbered `id` and those enclosing it, innermost first.
    pub open spec fn chain_from(&self, id: int) -> Seq<Scope>
        decreases id,
    {
        if 0 <= id < self.map@.len() {
            seq![self.map@[id]] + match self.map@[id].parent {
                Some(p) => if p.0 < id { self.chain_from(p.0 as int) } else { Seq::empty() },
                None => Seq::empty(),
            }
        } else {
            Seq::empty()
        }
    }

    /// `s` and the scopes enclosing it, innermost first.
    pub open spec fn chain(&self, s: Scope) -> Seq<Scope> {
        seq![s] + match s.parent {
            Some(p) => self.chain_from(p.0 as int),
            None => Seq::empty(),
        }
    }

    pub fn new() -> (r: Self)
        ensures
            r.wf(),
            r.map@.len() == 0,
    {
        ScopeMap { map: Vec::new() }
    }

    /// Adds a scope and returns its id.
    pub fn push(&mut self, scope: Scope) -> (r: ScopeId)
        requires
            old(self).map@.len() < u32::MAX,
        ensures
            r.0 == old(self).map@.len(),
            final(self).map@ == old(self).map@.push(scope),
            old(self).wf() && old(self).can_start(scope) ==> final(self).wf(),
    {
        let id = ScopeId(self.map.len() as u32);
        self.map.push(scope);
        proof {
            if old(self).wf() && old(self).can_start(scope) {
                assert forall|i: int| 0 <= i < self.map@.len() implies match #[trigger] self.map@[i].parent {
                    Some(p) => p.0 < i,
                    None => true,
                } by {
                    if i < old(self).map@.len() {
                        assert(self.map@[i] == old(self).map@[i]);
                        assert(old(self).map@[i].parent == old(self).map@[i].parent);
                    }
                }
            }
        }
        id
    }

    pub fn get(&self, id: ScopeId) -> (r: &Scope)
        requires
            id.0 < self.map@.len(),
        ensures
            *r == self.map@[id.0 as int],
    {
        &self.map[id.0 as usize]
    }
}

/// A walk one step up: the chain of a scope with a parent is the scope
/// followed by the chain of its parent.
proof fn lemma_chain_step(m: ScopeMap, s: Scope)
    requires
        m.wf(),
        m.can_start(s),
        s.parent is Some,
    ensures
        m.chain(s) == seq![s] + m.chain(m.map@[s.parent->Some_0.0 as int]),
        m.can_start(m.map@[s.parent->Some_0.0 as int]),
{
    let p = s.parent->Some_0.0 as int;
    let q = m.map@[p];
    assert(q.parent == m.map@[p].parent);
    assert(m.chain_from(p) =~= m.chain(q));
}

impl Scope {
    pub fn new(parent: Option<ScopeId>, kind: ScopeKind) -> (r: Self)
        ensures
            r.parent == parent,
            r.kind == kind,
    {
        Scope { parent, kind }
    }

    /// Whether some enclosing scope is a loop.
    pub fn find_loop(&self, scope_map: &ScopeMap) -> (r: Option<()>)
        requires
            scope_map.wf(),
            scope_map.can_start(*self),
        ensures
            r is Some <==> exists|i: int| 0 <= i < scope_map.chain(*self).len() && (#[trigger] scope_map.chain(*self)[i]).kind is Loop,
    {
        let mut cur: &Scope = self;
        let ghost k: int = 0;
        proof {
            assert(scope_map.chain(*self) =~= scope_map.chain(*self).subrange(0, 0) + scope_map.chain(*self));
        }
        loop
            invariant
                scope_map.wf(),
                scope_map.can_start(*cur),
                0 <= k,
                k + scope_map.chain(*cur).len() == scope_map.chain(*self).len(),
                scope_map.chain(*self) == scope_map.chain(*self).subrange(0, k) + scope_map.chain(*cur),
                forall|j: int| 0 <= j < k ==> !((#[trigger] scope_map.chain(*self)[j]).kind is Loop),
            decreases match cur.parent { Some(p) => p.0 + 1, None => 0 },
        {
            proof {
                assert(scope_map.chain(*cur)[0] == *cur);
            }
            proof {
                assert(scope_map.chain(*cur)[0] == *cur);
                assert(scope_map.chain(*self)[k] == scope_map.chain(*cur)[0]);
            }
            if let ScopeKind::Loop = cur.kind {
                return Some(());
            }
            match cur.parent {
                Some(p) => {
                    proof {
                        lemma_chain_step(*scope_map, *cur);
                        let c = scope_map.chain(*self);
                        assert(c.subrange(0, k + 1) =~= c.subrange(0, k).push(*cur));
                        k = k + 1;
                    }
                    let next = scope_map.get(p);
                    proof {
                        assert(next.parent == scope_map.map@[p.0 as int].parent);
                    }
                    cur = next;
                },
                None => {
                    proof {
                        assert(scope_map.chain(*self).len() == k + 1);
                    }
                    return None;
                },
            }
        }
    }
}


impl Scope {
    /// Tries `func` on this scope and then on each enclosing one, outwards,
    /// and gives the first value it returns; `None` when it returns none.
    pub fn over<T, F: Fn(&Scope) -> Option<T>>(&self, scope_map: &ScopeMap, func: F) -> (r: Option<T>)
        requires
            scope_map.wf(),
            scope_map.can_start(*self),
            forall|i: int| 0 <= i < scope_map.chain(*self).len() ==> call_requires(func, (&#[trigger] scope_map.chain(*self)[i],)),
        ensures
            r is None ==> forall|i: int| 0 <= i < scope_map.chain(*self).len() ==>
                call_ensures(func, (&#[trigger] scope_map.chain(*self)[i],), None::<T>),
            r is Some ==> exists|k: int| 0 <= k < scope_map.chain(*self).len()
                && call_ensures(func, (&#[trigger] scope_map.chain(*self)[k],), r)
                && forall|j: int| 0 <= j < k ==> call_ensures(func, (&#[trigger] scope_map.chain(*self)[j],), None::<T>),
    {
        let mut cur: &Scope = self;
        let ghost k: int = 0;
        proof {
            assert(scope_map.chain(*self) =~= scope_map.chain(*self).subrange(0, 0) + scope_map.chain(*self));
        }
        loop
            invariant
                scope_map.wf(),
                scope_map.can_start(*cur),
                0 <= k,
                k + scope_map.chain(*cur).len() == scope_map.chain(*self).len(),
                scope_map.chain(*self) == scope_map.chain(*self).subrange(0, k) + scope_map.chain(*cur),
                forall|i: int| 0 <= i < scope_map.chain(*self).len() ==> call_requires(func, (&#[trigger] scope_map.chain(*self)[i],)),
                forall|j: int| 0 <= j < k ==> call_ensures(func, (&#[trigger] scope_map.chain(*self)[j],), None::<T>),
            decreases match cur.parent { Some(p) => p.0 + 1, None => 0 },
        {
            proof {
                assert(scope_map.chain(*cur)[0] == *cur);
                assert(scope_map.chain(*self)[k] == scope_map.chain(*cur)[0]);
            }
            let v = func(cur);
            if v.is_some() {
                return v;
            }
            match cur.parent {
                Some(p) => {
                    proof {
                        lemma_chain_step(*scope_map, *cur);
                        let c = scope_map.chain(*self);
                        assert(c.subrange(0, k + 1) =~= c.subrange(0, k).push(*cur));
                        k = k + 1;
                    }
                    let next = scope_map.get(p);
                    proof {
                        assert(next.parent == scope_map.map@[p.0 as int].parent);
                    }
                    cur = next;
                },
                None => {
                    proof {
                        assert(scope_map.chain(*self).len() == k + 1);
                    }
                    return None;
                },
            }
        }
    }
}

/// The innermost function scope of `c`.
pub open spec fn first_func(c: Seq<Scope>) -> Option<FunctionScope>
    decreases c.len(),
{
    if c.len() == 0 {
        None
    } else if let ScopeKind::Function(f) = c[0].kind {
        Some(f)
    } else {
        first_func(c.drop_first())
    }
}

/// The trait of the innermost trait scope of `c`.
pub open spec fn first_trait(c: Seq<Scope>) -> Option<SymbolId>
    decreases c.len(),
{
    if c.len() == 0 {
        None
    } else if let ScopeKind::ImplicitTrait(t) = c[0].kind {
        Some(t)
    } else {
        first_trait(c.drop_first())
    }
}

/// The type of the innermost qualified type namespace of `c`.
pub open spec fn first_qualified_type(c: Seq<Scope>) -> Option<Sym>
    decreases c.len(),
{
    if c.len() == 0 {
        None
    } else if let ScopeKind::QualifiedTypeNamespace(t, _) = c[0].kind {
        Some(t)
    } else {
        first_qualified_type(c.drop_first())
    }
}

/// What the innermost alias named `self_ty` in `c` stands for.
pub open spec fn first_self(c: Seq<Scope>, self_ty: StringIndex) -> Option<Generic>
    decreases c.len(),
{
    if c.len() == 0 {
        None
    } else if c[0].kind matches ScopeKind::AliasDecl(n, g) && n == self_ty {
        Some(c[0].kind->AliasDecl_1)
    } else {
        first_self(c.drop_first(), self_ty)
    }
}

/// The type of the first generic named `name` in `gs`.
pub open spec fn first_gen(gs: Seq<(BoundedGeneric, Sym)>, name: StringIndex) -> Option<Sym>
    decreases gs.len(),
{
    if gs.len() == 0 {
        None
    } else if gs[0].0.name == name {
        Some(gs[0].1)
    } else {
        first_gen(gs.drop_first(), name)
    }
}

/// The type of the innermost generic named `name` in `c`, unless a
/// namespace fence comes first.
pub open spec fn gen_walk(c: Seq<Scope>, name: StringIndex) -> Option<Sym>
    decreases c.len(),
{
    if c.len() == 0 {
        None
    } else if c[0].kind is NamespaceFence {
        None
    } else if c[0].kind matches ScopeKind::Generics(g) && first_gen(g.generics@, name) is Some {
        first_gen(c[0].kind->Generics_0.generics@, name)
    } else {
        gen_walk(c.drop_first(), name)
    }
}

/// Looks `name` up among generics, the first entry with that name.
fn lookup_generic(gs: &Vec<(BoundedGeneric, Sym)>, name: StringIndex) -> (r: Option<Sym>)
    ensures
        r == first_gen(gs@, name),
{
    let mut i: usize = 0;
    proof {
        assert(gs@.subrange(0, gs@.len() as int) =~= gs@);
    }
    while i < gs.len()
        invariant
            0 <= i <= gs@.len(),
            first_gen(gs@, name) == first_gen(gs@.subrange(i as int, gs@.len() as int), name),
        decreases gs@.len() - i,
    {
        proof {
            let rest = gs@.subrange(i as int, gs@.len() as int);
            assert(rest[0] == gs@[i as int]);
            assert(rest.drop_first() =~= gs@.subrange(i + 1, gs@.len() as int));
        }
        if gs[i].0.name == name {
            return Some(gs[i].1);
        }
        i = i + 1;
    }
    None
}

impl Scope {
    /// The innermost enclosing function.
    pub fn find_curr_func(&self, scope_map: &ScopeMap) -> (r: Option<FunctionScope>)
        requires
            scope_map.wf(),
            scope_map.can_start(*self),
        ensures
            r == first_func(scope_map.chain(*self)),
    {
        let mut cur: &Scope = self;
        loop
            invariant
                scope_map.wf(),
                scope_map.can_start(*cur),
                first_func(scope_map.chain(*self)) == first_func(scope_map.chain(*cur)),
            decreases match cur.parent { Some(p) => p.0 + 1, None => 0 },
        {
            proof {
                assert(scope_map.chain(*cur)[0] == *cur);
            }
            if let ScopeKind::Function(l) = cur.kind {
                return Some(l);
            }
            match cur.parent {
                Some(p) => {
                    proof {
                        lemma_chain_step(*scope_map, *cur);
                        assert(scope_map.chain(*cur).drop_first() =~= scope_map.chain(scope_map.map@[p.0 as int]));
                    }
                    let next = scope_map.get(p);
                    cur = next;
                },
                None => {
                    proof {
                        assert(scope_map.chain(*cur).drop_first() =~= Seq::<Scope>::empty());
                        assert(!(cur.kind is Function));
                        assert(first_func(Seq::<Scope>::empty()) is None);
                        assert(first_func(scope_map.chain(*cur)) == first_func(scope_map.chain(*cur).drop_first()));
                    }
                    return None;
                },
            }
        }
    }

    /// The trait whose items are in scope, innermost first.
    pub fn find_super(&self, scope_map: &ScopeMap) -> (r: Option<SymbolId>)
        requires
            scope_map.wf(),
            scope_map.can_start(*self),
        ensures
            r == first_trait(scope_map.chain(*self)),
    {
        let mut cur: &Scope = self;
        loop
            invariant
                scope_map.wf(),
                scope_map.can_start(*cur),
                first_trait(scope_map.chain(*self)) == first_trait(scope_map.chain(*cur)),
            decreases match cur.parent { Some(p) => p.0 + 1, None => 0 },
        {
            proof {
                assert(scope_map.chain(*cur)[0] == *cur);
            }
            if let ScopeKind::ImplicitTrait(sym) = cur.kind {
                return Some(sym);
            }
            match cur.parent {
                Some(p) => {
                    proof {
                        lemma_chain_step(*scope_map, *cur);
                        assert(scope_map.chain(*cur).drop_first() =~= scope_map.chain(scope_map.map@[p.0 as int]));
                    }
                    let next = scope_map.get(p);
                    cur = next;
                },
                None => {
                    proof {
                        assert(scope_map.chain(*cur).drop_first() =~= Seq::<Scope>::empty());
                        assert(first_trait(Seq::<Scope>::empty()) is None);
                    }
                    return None;
                },
            }
        }
    }

    /// The type of the innermost qualified type namespace.
    pub fn find_qualified_type(&self, scope_map: &ScopeMap) -> (r: Option<Sym>)
        requires
            scope_map.wf(),
            scope_map.can_start(*self),
        ensures
            r == first_qualified_type(scope_map.chain(*self)),
    {
        let mut cur: &Scope = self;
        loop
            invariant
                scope_map.wf(),
                scope_map.can_start(*cur),
                first_qualified_type(scope_map.chain(*self)) == first_qualified_type(scope_map.chain(*cur)),
            decreases match cur.parent { Some(p) => p.0 + 1, None => 0 },
        {
            proof {
                assert(scope_map.chain(*cur)[0] == *cur);
            }
            if let ScopeKind::QualifiedTypeNamespace(ty, _) = cur.kind {
                return Some(ty);
            }
            match cur.parent {
                Some(p) => {
                    proof {
                        lemma_chain_step(*scope_map, *cur);
                        assert(scope_map.chain(*cur).drop_first() =~= scope_map.chain(scope_map.map@[p.0 as int]));
                    }
                    let next = scope_map.get(p);
                    cur = next;
                },
                None => {
                    proof {
                        assert(scope_map.chain(*cur).drop_first() =~= Seq::<Scope>::empty());
                        assert(first_qualified_type(Seq::<Scope>::empty()) is None);
                    }
                    return None;
                },
            }
        }
    }

    /// What `Self` (the name `self_ty`) stands for, innermost first.
    pub fn find_self<'a>(&'a self, scope_map: &'a ScopeMap, self_ty: StringIndex) -> (r: Option<&'a Generic>)
        requires
            scope_map.wf(),
            scope_map.can_start(*self),
        ensures
            match first_self(scope_map.chain(*self), self_ty) {
                Some(g) => r is Some && *r->Some_0 == g,
                None => r is None,
            },
    {
        let mut cur: &Scope = self;
        loop
            invariant
                scope_map.wf(),
                scope_map.can_start(*cur),
                first_self(scope_map.chain(*self), self_ty) == first_self(scope_map.chain(*cur), self_ty),
            decreases match cur.parent { Some(p) => p.0 + 1, None => 0 },
        {
            proof {
                assert(scope_map.chain(*cur)[0] == *cur);
            }
            if let ScopeKind::AliasDecl(sym_name, sym) = &cur.kind {
                if *sym_name == self_ty {
                    return Some(sym);
                }
            }
            match cur.parent {
                Some(p) => {
                    proof {
                        lemma_chain_step(*scope_map, *cur);
                        assert(scope_map.chain(*cur).drop_first() =~= scope_map.chain(scope_map.map@[p.0 as int]));
                    }
                    let next = scope_map.get(p);
                    cur = next;
                },
                None => {
                    proof {
                        assert(scope_map.chain(*cur).drop_first() =~= Seq::<Scope>::empty());
                        assert(first_self(Seq::<Scope>::empty(), self_ty) is None);
                    }
                    return None;
                },
            }
        }
    }

    /// The type that the generic `name` stands for, innermost first; none if a
    /// namespace fence comes before it.
    pub fn find_gen(&self, name: StringIndex, scope_map: &ScopeMap) -> (r: Option<Sym>)
        requires
            scope_map.wf(),
            scope_map.can_start(*self),
        ensures
            r == gen_walk(scope_map.chain(*self), name),
    {
        let mut cur: &Scope = self;
        loop
            invariant
                scope_map.wf(),
                scope_map.can_start(*cur),
                gen_walk(scope_map.chain(*self), name) == gen_walk(scope_map.chain(*cur), name),
            decreases match cur.parent { Some(p) => p.0 + 1, None => 0 },
        {
            proof {
                assert(scope_map.chain(*cur)[0] == *cur);
            }
            if let ScopeKind::NamespaceFence = cur.kind {
                return None;
            }
            if let ScopeKind::Generics(generics_scope) = &cur.kind {
                if let Some(ty) = lookup_generic(&generics_scope.generics, name) {
                    return Some(ty);
                }
            }
            match cur.parent {
                Some(p) => {
                    proof {
                        lemma_chain_step(*scope_map, *cur);
                        assert(scope_map.chain(*cur).drop_first() =~= scope_map.chain(scope_map.map@[p.0 as int]));
                    }
                    let next = scope_map.get(p);
                    cur = next;
                },
                None => {
                    proof {
                        assert(scope_map.chain(*cur).drop_first() =~= Seq::<Scope>::empty());
                        assert(gen_walk(Seq::<Scope>::empty(), name) is None);
                    }
                    return None;
                },
            }
        }
    }
}


/// What a lookup of `name` in namespace `ns` on behalf of `requester` finds,
/// if it finds anything.
pub open spec fn ns_lookup(namespaces: NamespaceMap, ns: NamespaceId, requester: NamespaceId, name: StringIndex) -> Option<SymbolGetResult> {
    let r = lookup_result(namespaces.entry_of(ns, name), is_ancestor(namespaces.map@, ns, requester), name);
    if r == SymbolGetResult::Undefined { None } else { Some(r) }
}

/// What scope `s` gives for the symbol `name`, if anything: a namespace's
/// entry, the symbol a type namespace's type stands for, an alias, or the
/// symbol a generic stands for.
pub open spec fn sym_step(s: Scope, name: StringIndex, requester: NamespaceId, symbols: SymbolMap, namespaces: NamespaceMap) -> Option<SymbolGetResult> {
    match s.kind {
        ScopeKind::ImplicitNamespace(ns) => ns_lookup(namespaces, ns, requester, name),
        ScopeKind::QualifiedNamespace(ns) => ns_lookup(namespaces, ns, requester, name),
        ScopeKind::QualifiedTypeNamespace(ty, q) => match symbols.shallow(ty) {
            Sym::Ty(sym, _) => {
                let ns = symbols.syms@[sym.0 as int].1;
                ns_lookup(namespaces, ns, match q { Some(r) => r, None => ns }, name)
            },
            Sym::Var(_) => None,
        },
        ScopeKind::AliasDecl(ident, g) => if name == ident && g.kind is Sym {
            Some(SymbolGetResult::Symbol(g.kind->Sym_0))
        } else {
            None
        },
        ScopeKind::Generics(gs) => match first_gen(gs.generics@, name) {
            Some(t) => Some(SymbolGetResult::Symbol(symbols.shallow(t)->Ty_0)),
            None => None,
        },
        _ => None,
    }
}

/// The ids that scope `s` holds are valid in `symbols` and `namespaces`.
pub open spec fn scope_valid(s: Scope, symbols: SymbolMap, namespaces: NamespaceMap) -> bool {
    match s.kind {
        ScopeKind::ImplicitNamespace(ns) => namespaces.contains(ns),
        ScopeKind::QualifiedNamespace(ns) => namespaces.contains(ns),
        ScopeKind::QualifiedTypeNamespace(ty, q) => {
            &&& (ty matches Sym::Var(v) ==> v.0 < symbols.vars@.len())
            &&& (symbols.shallow(ty) matches Sym::Ty(sym, _) ==> {
                &&& sym.0 < symbols.syms@.len()
                &&& namespaces.contains(symbols.syms@[sym.0 as int].1)
            })
            &&& (q matches Some(r) ==> namespaces.contains(r))
        },
        ScopeKind::Generics(gs) => forall|i: int| 0 <= i < gs.generics@.len() ==>
            ((#[trigger] gs.generics@[i]).1 matches Sym::Var(v) ==> v.0 < symbols.vars@.len()),
        _ => true,
    }
}

/// The lookup of `name` along `c` gets as far as it needs to without
/// failing: every scope it reaches is valid, and a generic it finds stands
/// for a symbol type.
pub open spec fn sym_walk_ok(c: Seq<Scope>, name: StringIndex, requester: NamespaceId, symbols: SymbolMap, namespaces: NamespaceMap) -> bool
    decreases c.len(),
{
    if c.len() == 0 || c[0].kind is NamespaceFence {
        true
    } else {
        &&& scope_valid(c[0], symbols, namespaces)
        &&& (c[0].kind matches ScopeKind::Generics(gs) && first_gen(gs.generics@, name) matches Some(t)
            ==> symbols.shallow(t) is Ty)
        &&& (sym_step(c[0], name, requester, symbols, namespaces) is Some
            || sym_walk_ok(c.drop_first(), name, requester, symbols, namespaces))
    }
}

/// What the lookup of `name` along `c` gives: the first scope's answer,
/// unless a namespace fence comes before any answer.
pub open spec fn sym_walk(c: Seq<Scope>, name: StringIndex, requester: NamespaceId, symbols: SymbolMap, namespaces: NamespaceMap) -> SymbolGetResult
    decreases c.len(),
{
    if c.len() == 0 || c[0].kind is NamespaceFence {
        SymbolGetResult::Undefined
    } else {
        match sym_step(c[0], name, requester, symbols, namespaces) {
            Some(r) => r,
            None => sym_walk(c.drop_first(), name, requester, symbols, namespaces),
        }
    }
}

/// The namespace of the innermost implicit namespace scope of `c`.
pub open spec fn first_implicit_ns(c: Seq<Scope>) -> Option<NamespaceId>
    decreases c.len(),
{
    if c.len() == 0 {
        None
    } else if let ScopeKind::ImplicitNamespace(ns) = c[0].kind {
        Some(ns)
    } else {
        first_implicit_ns(c.drop_first())
    }
}

fn lookup_in_ns(namespaces: &NamespaceMap, ns: NamespaceId, requester: NamespaceId, name: StringIndex) -> (r: Option<SymbolGetResult>)
    requires
        namespaces.wf(),
        namespaces.contains(ns),
        namespaces.contains(requester),
    ensures
        r == ns_lookup(*namespaces, ns, requester, name),
{
    let result = namespaces.get_sym(ns, requester, name);
    if result != SymbolGetResult::Undefined {
        Some(result)
    } else {
        None
    }
}

impl Scope {
    /// What this one scope gives for the symbol `name`, if anything.
    fn sym_here(&self, name: StringIndex, symbols: &SymbolMap, namespaces: &NamespaceMap, requester: NamespaceId) -> (r: Option<SymbolGetResult>)
        requires
            symbols.wf(),
            namespaces.wf(),
            namespaces.contains(requester),
            scope_valid(*self, *symbols, *namespaces),
            self.kind matches ScopeKind::Generics(gs) && first_gen(gs.generics@, name) matches Some(t)
                ==> symbols.shallow(t) is Ty,
        ensures
            r == sym_step(*self, name, requester, *symbols, *namespaces),
    {
        match &self.kind {
            ScopeKind::ImplicitNamespace(ns) => lookup_in_ns(namespaces, *ns, requester, name),
            ScopeKind::QualifiedNamespace(ns) => lookup_in_ns(namespaces, *ns, requester, name),
            ScopeKind::QualifiedTypeNamespace(ty, qualified_requester) => {
                match ty.sym(symbols) {
                    Ok(sym) => {
                        let ns = symbols.sym_ns(sym);
                        let req = match qualified_requester {
                            Some(r) => *r,
                            None => ns,
                        };
                        lookup_in_ns(namespaces, ns, req, name)
                    },
                    Err(_) => None,
                }
            },
            ScopeKind::AliasDecl(ident, ty) => {
                if name == *ident {
                    if let Some(sym) = ty.sym() {
                        return Some(SymbolGetResult::Symbol(sym));
                    }
                }
                None
            },
            ScopeKind::Generics(generics_scope) => {
                match lookup_generic(&generics_scope.generics, name) {
                    Some(t) => {
                        proof {
                            if let Sym::Var(v) = t {
                                let gs = generics_scope.generics@;
                                assert(first_gen(gs, name) == Some(t));
                                lemma_first_gen_in(gs, name);
                            }
                        }
                        match t.sym(symbols) {
                            Ok(sym) => Some(SymbolGetResult::Symbol(sym)),
                            Err(_) => {
                                proof {
                                    assert(false);
                                }
                                None
                            },
                        }
                    },
                    None => None,
                }
            },
            _ => None,
        }
    }

    /// Looks the symbol `name` up from this scope outwards, on behalf of code
    /// in namespace `requester`. A namespace fence met before an answer
    /// hides everything beyond it.
    pub fn find_sym_from(&self, name: StringIndex, scope_map: &ScopeMap, symbols: &mut SymbolMap,
                         namespaces: &NamespaceMap, requester: NamespaceId) -> (r: SymbolGetResult)
        requires
            scope_map.wf(),
            scope_map.can_start(*self),
            old(symbols).wf(),
            namespaces.wf(),
            namespaces.contains(requester),
            sym_walk_ok(scope_map.chain(*self), name, requester, *old(symbols), *namespaces),
        ensures
            *final(symbols) == *old(symbols),
            r == sym_walk(scope_map.chain(*self), name, requester, *old(symbols), *namespaces),
    {
        let mut cur: &Scope = self;
        loop
            invariant
                scope_map.wf(),
                scope_map.can_start(*cur),
                symbols.wf(),
                *symbols == *old(symbols),
                namespaces.wf(),
                namespaces.contains(requester),
                sym_walk_ok(scope_map.chain(*cur), name, requester, *symbols, *namespaces),
                sym_walk(scope_map.chain(*self), name, requester, *symbols, *namespaces)
                    == sym_walk(scope_map.chain(*cur), name, requester, *symbols, *namespaces),
            decreases match cur.parent { Some(p) => p.0 + 1, None => 0 },
        {
            proof {
                assert(scope_map.chain(*cur)[0] == *cur);
            }
            if let ScopeKind::NamespaceFence = cur.kind {
                return SymbolGetResult::Undefined;
            }
            if let Some(result) = cur.sym_here(name, symbols, namespaces, requester) {
                return result;
            }
            match cur.parent {
                Some(p) => {
                    proof {
                        lemma_chain_step(*scope_map, *cur);
                        assert(scope_map.chain(*cur).drop_first() =~= scope_map.chain(scope_map.map@[p.0 as int]));
                    }
                    let next = scope_map.get(p);
                    cur = next;
                },
                None => {
                    proof {
                        assert(scope_map.chain(*cur).drop_first() =~= Seq::<Scope>::empty());
                        assert(sym_walk(Seq::<Scope>::empty(), name, requester, *symbols, *namespaces) == SymbolGetResult::Undefined);
                    }
                    return SymbolGetResult::Undefined;
                },
            }
        }
    }

    /// The namespace of the innermost implicit namespace scope.
    fn find_requester(&self, scope_map: &ScopeMap) -> (r: Option<NamespaceId>)
        requires
            scope_map.wf(),
            scope_map.can_start(*self),
        ensures
            r == first_implicit_ns(scope_map.chain(*self)),
    {
        let mut cur: &Scope = self;
        loop
            invariant
                scope_map.wf(),
                scope_map.can_start(*cur),
                first_implicit_ns(scope_map.chain(*self)) == first_implicit_ns(scope_map.chain(*cur)),
            decreases match cur.parent { Some(p) => p.0 + 1, None => 0 },
        {
            proof {
                assert(scope_map.chain(*cur)[0] == *cur);
            }
            if let ScopeKind::ImplicitNamespace(ns) = cur.kind {
                return Some(ns);
            }
            match cur.parent {
                Some(p) => {
                    proof {
                        lemma_chain_step(*scope_map, *cur);
                        assert(scope_map.chain(*cur).drop_first() =~= scope_map.chain(scope_map.map@[p.0 as int]));
                    }
                    let next = scope_map.get(p);
                    cur = next;
                },
                None => {
                    proof {
                        assert(scope_map.chain(*cur).drop_first() =~= Seq::<Scope>::empty());
                        assert(first_implicit_ns(Seq::<Scope>::empty()) is None);
                    }
                    return None;
                },
            }
        }
    }

    /// Looks the symbol `name` up from this scope outwards, on behalf of the
    /// innermost implicit namespace; without one, nothing is found.
    pub fn find_sym(&self, name: StringIndex, scope_map: &ScopeMap, symbols: &mut SymbolMap,
                    namespaces: &NamespaceMap) -> (r: SymbolGetResult)
        requires
            scope_map.wf(),
            scope_map.can_start(*self),
            old(symbols).wf(),
            namespaces.wf(),
            first_implicit_ns(scope_map.chain(*self)) matches Some(req) ==> {
                &&& namespaces.contains(req)
                &&& sym_walk_ok(scope_map.chain(*self), name, req, *old(symbols), *namespaces)
            },
        ensures
            *final(symbols) == *old(symbols),
            r == match first_implicit_ns(scope_map.chain(*self)) {
                Some(req) => sym_walk(scope_map.chain(*self), name, req, *old(symbols), *namespaces),
                None => SymbolGetResult::Undefined,
            },
    {
        match self.find_requester(scope_map) {
            Some(requester) => self.find_sym_from(name, scope_map, symbols, namespaces, requester),
            None => SymbolGetResult::Undefined,
        }
    }
}

proof fn lemma_first_gen_in(gs: Seq<(BoundedGeneric, Sym)>, name: StringIndex)
    requires
        first_gen(gs, name) is Some,
    ensures
        exists|i: int| 0 <= i < gs.len() && (#[trigger] gs[i]).1 == first_gen(gs, name)->Some_0,
    decreases gs.len(),
{
    if gs[0].0.name != name {
        lemma_first_gen_in(gs.drop_first(), name);
        let i = choose|i: int| 0 <= i < gs.drop_first().len() && (#[trigger] gs.drop_first()[i]).1 == first_gen(gs.drop_first(), name)->Some_0;
        assert(gs[i + 1] == gs.drop_first()[i]);
    } else {
        assert(gs[0].1 == first_gen(gs, name)->Some_0);
    }
}


/// What namespace scope `s` gives for `name` in a variable lookup, on
/// behalf of `requester` or, without one, of the namespace itself.
pub open spec fn var_ns_step(s: Scope, name: StringIndex, requester: Option<NamespaceId>, symbols: SymbolMap, namespaces: NamespaceMap) -> Option<SymbolGetResult> {
    match s.kind {
        ScopeKind::ImplicitNamespace(ns) => ns_lookup(namespaces, ns, match requester { Some(r) => r, None => ns }, name),
        ScopeKind::QualifiedNamespace(ns) => ns_lookup(namespaces, ns, match requester { Some(r) => r, None => ns }, name),
        ScopeKind::QualifiedTypeNamespace(ty, q) => match symbols.shallow(ty) {
            Sym::Ty(sym, _) => {
                let ns = symbols.syms@[sym.0 as int].1;
                ns_lookup(namespaces, ns, match q { Some(r) => r, None => ns }, name)
            },
            Sym::Var(_) => None,
        },
        _ => None,
    }
}

/// The variable named `name` along `c`, and whether a closure lies between
/// it and the start; or else, as an error, the symbol a generic or a
/// namespace gives for the name, or `Undefined`. Past a namespace fence
/// only the root's namespaces are searched. `fence` and `captured` say
/// whether a fence or a closure came before `c`.
pub open spec fn var_walk(c: Seq<Scope>, name: StringIndex, requester: Option<NamespaceId>, fence: bool,
                          captured: bool, symbols: SymbolMap, namespaces: NamespaceMap) -> Result<(VariableScope, bool), SymbolGetResult>
    decreases c.len(),
{
    if c.len() == 0 {
        Err(SymbolGetResult::Undefined)
    } else {
        let s = c[0];
        let fence2 = fence || s.kind is NamespaceFence;
        let captured2 = captured || s.kind is Closure;
        if s.kind matches ScopeKind::VariableScope(v) && v.name == name {
            Ok((s.kind->VariableScope_0, captured2))
        } else if s.kind matches ScopeKind::Generics(gs) && first_gen(gs.generics@, name) is Some {
            Err(SymbolGetResult::Symbol(symbols.shallow(first_gen(s.kind->Generics_0.generics@, name)->Some_0)->Ty_0))
        } else if s.kind is VariableScope || (fence2 && s.parent is Some) {
            var_walk(c.drop_first(), name, requester, fence2, captured2, symbols, namespaces)
        } else {
            match var_ns_step(s, name, requester, symbols, namespaces) {
                Some(r) => Err(r),
                None => var_walk(c.drop_first(), name, requester, fence2, captured2, symbols, namespaces),
            }
        }
    }
}

/// The variable lookup ends at scope `s`, `fence` saying whether a fence
/// was met up to it.
pub open spec fn var_stops_at(s: Scope, name: StringIndex, requester: Option<NamespaceId>, fence: bool,
                              symbols: SymbolMap, namespaces: NamespaceMap) -> bool {
    ||| s.kind matches ScopeKind::VariableScope(v) && v.name == name
    ||| s.kind matches ScopeKind::Generics(gs) && first_gen(gs.generics@, name) is Some
    ||| !(s.kind is VariableScope) && !(fence && s.parent is Some) && var_ns_step(s, name, requester, symbols, namespaces) is Some
}

/// The variable lookup along `c` fails nowhere: the scopes it searches are
/// valid, a generic it finds stands for a symbol type, and the closures it
/// passes before finding the variable exist.
pub open spec fn var_walk_ok(c: Seq<Scope>, name: StringIndex, requester: Option<NamespaceId>, fence: bool,
                             symbols: SymbolMap, namespaces: NamespaceMap) -> bool
    decreases c.len(),
{
    if c.len() == 0 {
        true
    } else {
        let s = c[0];
        let fence2 = fence || s.kind is NamespaceFence;
        &&& scope_valid(s, symbols, namespaces)
        &&& (s.kind matches ScopeKind::Closure(id) ==> id.0 < symbols.closures@.len())
        &&& (s.kind matches ScopeKind::Generics(gs) && first_gen(gs.generics@, name) matches Some(t)
            ==> symbols.shallow(t) is Ty)
        &&& (requester matches Some(r) ==> namespaces.contains(r))
        &&& (var_stops_at(s, name, requester, fence2, symbols, namespaces)
            || var_walk_ok(c.drop_first(), name, requester, fence2, symbols, namespaces))
    }
}

/// The captures of closure `id` after it captures `name` of type `ty`.
pub open spec fn with_capture(cls: Seq<Seq<(StringIndex, Sym)>>, id: ClosureId, name: StringIndex, ty: Sym) -> Seq<Seq<(StringIndex, Sym)>> {
    let old = cls[id.0 as int];
    cls.update(id.0 as int, if old.contains((name, ty)) { old } else { old.push((name, ty)) })
}

/// The captures after every closure along `c`, up to the variable named
/// `name`, captures it with type `ty`.
pub open spec fn add_captures(cls: Seq<Seq<(StringIndex, Sym)>>, c: Seq<Scope>, name: StringIndex, ty: Sym) -> Seq<Seq<(StringIndex, Sym)>>
    decreases c.len(),
{
    if c.len() == 0 || (c[0].kind matches ScopeKind::VariableScope(v) && v.name == name) {
        cls
    } else if let ScopeKind::Closure(id) = c[0].kind {
        add_captures(with_capture(cls, id, name, ty), c.drop_first(), name, ty)
    } else {
        add_captures(cls, c.drop_first(), name, ty)
    }
}

/// What each closure of `m` captures.
pub open spec fn captures(m: SymbolMap) -> Seq<Seq<(StringIndex, Sym)>> {
    m.closures@.map_values(|c: crate::syms::sym_map::Closure| c.captured_variables@)
}


impl Scope {
    /// What this namespace scope gives for `name` in a variable lookup.
    fn var_ns_here(&self, name: StringIndex, symbols: &SymbolMap, namespaces: &NamespaceMap, requester: Option<NamespaceId>) -> (r: Option<SymbolGetResult>)
        requires
            symbols.wf(),
            namespaces.wf(),
            requester matches Some(q) ==> namespaces.contains(q),
            scope_valid(*self, *symbols, *namespaces),
        ensures
            r == var_ns_step(*self, name, requester, *symbols, *namespaces),
    {
        match &self.kind {
            ScopeKind::ImplicitNamespace(ns) => {
                let req = match requester { Some(q) => q, None => *ns };
                lookup_in_ns(namespaces, *ns, req, name)
            },
            ScopeKind::QualifiedNamespace(ns) => {
                let req = match requester { Some(q) => q, None => *ns };
                lookup_in_ns(namespaces, *ns, req, name)
            },
            ScopeKind::QualifiedTypeNamespace(ty, qualified_requester) => {
                match ty.sym(symbols) {
                    Ok(sym) => {
                        let ns = symbols.sym_ns(sym);
                        let req = match qualified_requester {
                            Some(q) => *q,
                            None => ns,
                        };
                        lookup_in_ns(namespaces, ns, req, name)
                    },
                    Err(_) => None,
                }
            },
            _ => None,
        }
    }

    /// Looks the variable `name` up from this scope outwards. A variable
    /// found comes with whether a closure lies between here and it, and
    /// every such closure records that it captures the variable; otherwise
    /// the error holds what a generic or namespace gives for the name, or
    /// `Undefined`. Past a namespace fence only the root's namespaces are
    /// searched.
    pub fn find_var(&self, name: StringIndex, scope_map: &ScopeMap, namespaces: &NamespaceMap,
                    symbols: &mut SymbolMap) -> (r: Result<(VariableScope, bool), SymbolGetResult>)
        requires
            scope_map.wf(),
            scope_map.can_start(*self),
            old(symbols).wf(),
            namespaces.wf(),
            var_walk_ok(scope_map.chain(*self), name, first_implicit_ns(scope_map.chain(*self)), false, *old(symbols), *namespaces),
        ensures
            r == var_walk(scope_map.chain(*self), name, first_implicit_ns(scope_map.chain(*self)), false, false, *old(symbols), *namespaces),
            final(symbols).syms == old(symbols).syms,
            final(symbols).gens == old(symbols).gens,
            final(symbols).vars == old(symbols).vars,
            final(symbols).closures@.len() == old(symbols).closures@.len(),
            captures(*final(symbols)) == match r {
                Ok((v, _)) => add_captures(captures(*old(symbols)), scope_map.chain(*self), name, v.ty),
                Err(_) => captures(*old(symbols)),
            },
    {
        let requester = self.find_requester(scope_map);
        let ghost req = requester;
        let mut fence = false;
        let mut captured = false;
        let mut cur: &Scope = self;
        let mut result: Result<(VariableScope, bool), SymbolGetResult> = Err(SymbolGetResult::Undefined);
        loop
            invariant_except_break
                scope_map.can_start(*cur),
                var_walk_ok(scope_map.chain(*cur), name, requester, fence, *symbols, *namespaces),
                var_walk(scope_map.chain(*self), name, requester, false, false, *symbols, *namespaces)
                    == var_walk(scope_map.chain(*cur), name, requester, fence, captured, *symbols, *namespaces),
            invariant
                scope_map.wf(),
                symbols.wf(),
                *symbols == *old(symbols),
                namespaces.wf(),
                req == requester,
            ensures
                result == var_walk(scope_map.chain(*self), name, requester, false, false, *symbols, *namespaces),
                *symbols == *old(symbols),
            decreases match cur.parent { Some(p) => p.0 + 1, None => 0 },
        {
            proof {
                assert(scope_map.chain(*cur)[0] == *cur);
            }
            if let ScopeKind::NamespaceFence = cur.kind {
                fence = true;
            }
            if let ScopeKind::Closure(_) = cur.kind {
                captured = true;
            }
            let mut step: Option<Result<(VariableScope, bool), SymbolGetResult>> = None;
            let mut is_var = false;
            if let ScopeKind::VariableScope(v) = cur.kind {
                is_var = true;
                if v.name == name {
                    step = Some(Ok((v, captured)));
                }
            }
            if step.is_none() && !is_var {
                if let ScopeKind::Generics(generics_scope) = &cur.kind {
                    if let Some(t) = lookup_generic(&generics_scope.generics, name) {
                        proof {
                            if let Sym::Var(v) = t {
                                lemma_first_gen_in(generics_scope.generics@, name);
                            }
                        }
                        let sym = t.sym(symbols);
                        match sym {
                            Ok(s) => {
                                step = Some(Err(SymbolGetResult::Symbol(s)));
                            },
                            Err(_) => {
                                proof {
                                    assert(false);
                                }
                            },
                        }
                    }
                }
            }
            if step.is_none() && !is_var && !(fence && cur.parent.is_some()) {
                if let Some(res) = cur.var_ns_here(name, symbols, namespaces, requester) {
                    step = Some(Err(res));
                }
            }
            if let Some(res) = step {
                result = res;
                break;
            }
            match cur.parent {
                Some(p) => {
                    proof {
                        lemma_chain_step(*scope_map, *cur);
                        assert(scope_map.chain(*cur).drop_first() =~= scope_map.chain(scope_map.map@[p.0 as int]));
                    }
                    let next = scope_map.get(p);
                    cur = next;
                },
                None => {
                    proof {
                        assert(scope_map.chain(*cur).drop_first() =~= Seq::<Scope>::empty());
                        assert(var_walk(Seq::<Scope>::empty(), name, requester, fence, captured, *symbols, *namespaces)
                            == Err::<(VariableScope, bool), SymbolGetResult>(SymbolGetResult::Undefined));
                    }
                    result = Err(SymbolGetResult::Undefined);
                    break;
                },
            }
        }
        if let Ok((v, _)) = result {
            self.capture_upto(scope_map, namespaces, symbols, name, v.ty, Ghost(requester));
        }
        result
    }

    /// Records, for every closure from this scope out to the variable
    /// `name`, that it captures the variable, of type `ty`.
    fn capture_upto(&self, scope_map: &ScopeMap, namespaces: &NamespaceMap, symbols: &mut SymbolMap,
                    name: StringIndex, ty: Sym, Ghost(requester): Ghost<Option<NamespaceId>>)
        requires
            scope_map.wf(),
            scope_map.can_start(*self),
            old(symbols).wf(),
            var_walk_ok(scope_map.chain(*self), name, requester, false, *old(symbols), *namespaces),
            var_walk(scope_map.chain(*self), name, requester, false, false, *old(symbols), *namespaces) is Ok,
        ensures
            final(symbols).syms == old(symbols).syms,
            final(symbols).gens == old(symbols).gens,
            final(symbols).vars == old(symbols).vars,
            final(symbols).closures@.len() == old(symbols).closures@.len(),
            captures(*final(symbols)) == add_captures(captures(*old(symbols)), scope_map.chain(*self), name, ty),
    {
        let ghost m0 = *old(symbols);
        let ghost mut fence = false;
        let mut cur: &Scope = self;
        loop
            invariant
                scope_map.wf(),
                scope_map.can_start(*cur),
                symbols.syms == m0.syms,
                symbols.gens == m0.gens,
                symbols.vars == m0.vars,
                symbols.closures@.len() == m0.closures@.len(),
                var_walk_ok(scope_map.chain(*cur), name, requester, fence, m0, *namespaces),
                var_walk(scope_map.chain(*cur), name, requester, fence, false, m0, *namespaces) is Ok,
                add_captures(captures(m0), scope_map.chain(*self), name, ty)
                    == add_captures(captures(*symbols), scope_map.chain(*cur), name, ty),
            decreases match cur.parent { Some(p) => p.0 + 1, None => 0 },
        {
            proof {
                assert(scope_map.chain(*cur)[0] == *cur);
                lemma_var_walk_captured(scope_map.chain(*cur), name, requester, fence, m0, *namespaces);
            }
            if let ScopeKind::VariableScope(v) = cur.kind {
                if v.name == name {
                    return;
                }
            }
            if let ScopeKind::Closure(closure) = cur.kind {
                let ghost before = *symbols;
                symbols.insert_closure_capture(closure, name, ty);
                proof {
                    assert(captures(*symbols) =~= with_capture(captures(before), closure, name, ty));
                }
            }
            proof {
                fence = fence || cur.kind is NamespaceFence;
            }
            match cur.parent {
                Some(p) => {
                    proof {
                        lemma_chain_step(*scope_map, *cur);
                        assert(scope_map.chain(*cur).drop_first() =~= scope_map.chain(scope_map.map@[p.0 as int]));
                    }
                    let next = scope_map.get(p);
                    cur = next;
                },
                None => {
                    proof {
                        assert(scope_map.chain(*cur).drop_first() =~= Seq::<Scope>::empty());
                        assert(var_walk(Seq::<Scope>::empty(), name, requester, fence, false, m0, *namespaces) is Err);
                    }
                    return;
                },
            }
        }
    }
}

/// Whether the lookup ends in a variable does not depend on whether a
/// closure came before.
proof fn lemma_var_walk_captured(c: Seq<Scope>, name: StringIndex, requester: Option<NamespaceId>, fence: bool,
                                 symbols: SymbolMap, namespaces: NamespaceMap)
    ensures
        forall|a: bool| (#[trigger] var_walk(c, name, requester, fence, a, symbols, namespaces) is Ok)
            == (var_walk(c, name, requester, fence, false, symbols, namespaces) is Ok),
    decreases c.len(),
{
    if c.len() > 0 {
        let s = c[0];
        let fence2 = fence || s.kind is NamespaceFence;
        let rest = c.drop_first();
        lemma_var_walk_captured(rest, name, requester, fence2, symbols, namespaces);
        assert forall|a: bool| (#[trigger] var_walk(c, name, requester, fence, a, symbols, namespaces) is Ok)
            == (var_walk(c, name, requester, fence, false, symbols, namespaces) is Ok) by {
            let cl = s.kind is Closure;
            assert((var_walk(rest, name, requester, fence2, a || cl, symbols, namespaces) is Ok)
                == (var_walk(rest, name, requester, fence2, false, symbols, namespaces) is Ok));
            assert((var_walk(rest, name, requester, fence2, false || cl, symbols, namespaces) is Ok)
                == (var_walk(rest, name, requester, fence2, false, symbols, namespaces) is Ok));
        }
    }
}


/// A generic entry by value: the parameter's name, its bounds and its type.
pub type GenEntry = (StringIndex, Seq<SymbolId>, Sym);

pub open spec fn entry_of(e: (BoundedGeneric, Sym)) -> GenEntry {
    (e.0.name, e.0.bounds@, e.1)
}

pub open spec fn entries(v: Seq<(BoundedGeneric, Sym)>) -> Seq<GenEntry> {
    v.map_values(|e: (BoundedGeneric, Sym)| entry_of(e))
}

/// Some entry of `acc` is named `n`.
pub open spec fn has_name(acc: Seq<GenEntry>, n: StringIndex) -> bool {
    exists|i: int| 0 <= i < acc.len() && (#[trigger] acc[i]).0 == n
}

/// `acc` followed by the entries of `gs` whose names it does not hold yet,
/// the first of each name winning.
pub open spec fn add_new(acc: Seq<GenEntry>, gs: Seq<GenEntry>) -> Seq<GenEntry>
    decreases gs.len(),
{
    if gs.len() == 0 {
        acc
    } else {
        add_new(if has_name(acc, gs[0].0) { acc } else { acc.push(gs[0]) }, gs.drop_first())
    }
}

/// `acc` followed by every generic of `c`, innermost first, the first of
/// each name winning, up to the first namespace fence.
pub open spec fn collect_walk(acc: Seq<GenEntry>, c: Seq<Scope>) -> Seq<GenEntry>
    decreases c.len(),
{
    if c.len() == 0 || c[0].kind is NamespaceFence {
        acc
    } else if let ScopeKind::Generics(gs) = c[0].kind {
        collect_walk(add_new(acc, entries(gs.generics@)), c.drop_first())
    } else {
        collect_walk(acc, c.drop_first())
    }
}

fn copy_bounded(b: &BoundedGeneric) -> (r: BoundedGeneric)
    ensures
        r.name == b.name,
        r.bounds@ == b.bounds@,
{
    let mut bounds: Vec<SymbolId> = Vec::new();
    let mut i: usize = 0;
    while i < b.bounds.len()
        invariant
            0 <= i <= b.bounds@.len(),
            bounds@ =~= b.bounds@.subrange(0, i as int),
        decreases b.bounds@.len() - i,
    {
        bounds.push(b.bounds[i]);
        i = i + 1;
    }
    BoundedGeneric { name: b.name, bounds }
}

/// Appends to `out` the generics of `gs` whose names `out` does not hold.
fn add_new_generics(out: &mut Vec<(BoundedGeneric, Sym)>, gs: &Vec<(BoundedGeneric, Sym)>)
    ensures
        entries(final(out)@) == add_new(entries(old(out)@), entries(gs@)),
{
    let mut i: usize = 0;
    proof {
        assert(entries(gs@).subrange(0, entries(gs@).len() as int) =~= entries(gs@));
    }
    while i < gs.len()
        invariant
            0 <= i <= gs@.len(),
            add_new(entries(old(out)@), entries(gs@))
                == add_new(entries(out@), entries(gs@).subrange(i as int, gs@.len() as int)),
        decreases gs@.len() - i,
    {
        let name = gs[i].0.name;
        let mut found = false;
        let mut j: usize = 0;
        while j < out.len()
            invariant
                0 <= j <= out@.len(),
                found <==> exists|k: int| 0 <= k < j && (#[trigger] entries(out@)[k]).0 == name,
            decreases out@.len() - j,
        {
            if out[j].0.name == name {
                found = true;
                proof {
                    assert(entries(out@)[j as int].0 == name);
                }
            }
            j = j + 1;
        }
        let ghost before = entries(out@);
        proof {
            let rest = entries(gs@).subrange(i as int, gs@.len() as int);
            assert(rest[0] == entry_of(gs@[i as int]));
            assert(rest.drop_first() =~= entries(gs@).subrange(i + 1, gs@.len() as int));
            assert(found == has_name(before, name));
        }
        if !found {
            let b = copy_bounded(&gs[i].0);
            out.push((b, gs[i].1));
            proof {
                assert(entries(out@) =~= before.push(entry_of(gs@[i as int])));
            }
        }
        i = i + 1;
    }
    proof {
        assert(entries(gs@).subrange(i as int, gs@.len() as int) =~= Seq::<GenEntry>::empty());
    }
}

impl Scope {
    /// Appends to `out` every enclosing generic, innermost first, whose name
    /// `out` does not hold yet, stopping at a namespace fence.
    pub fn collect_generics(&self, scope_map: &ScopeMap, out: &mut Vec<(BoundedGeneric, Sym)>)
        requires
            scope_map.wf(),
            scope_map.can_start(*self),
        ensures
            entries(final(out)@) == collect_walk(entries(old(out)@), scope_map.chain(*self)),
    {
        let mut cur: &Scope = self;
        loop
            invariant
                scope_map.wf(),
                scope_map.can_start(*cur),
                collect_walk(entries(old(out)@), scope_map.chain(*self))
                    == collect_walk(entries(out@), scope_map.chain(*cur)),
            decreases match cur.parent { Some(p) => p.0 + 1, None => 0 },
        {
            proof {
                assert(scope_map.chain(*cur)[0] == *cur);
            }
            if let ScopeKind::NamespaceFence = cur.kind {
                return;
            }
            if let ScopeKind::Generics(generics_scope) = &cur.kind {
                add_new_generics(out, &generics_scope.generics);
            }
            match cur.parent {
                Some(p) => {
                    proof {
                        lemma_chain_step(*scope_map, *cur);
                        assert(scope_map.chain(*cur).drop_first() =~= scope_map.chain(scope_map.map@[p.0 as int]));
                    }
                    let next = scope_map.get(p);
                    cur = next;
                },
                None => {
                    proof {
                        assert(scope_map.chain(*cur).drop_first() =~= Seq::<Scope>::empty());
                        assert(collect_walk(entries(out@), Seq::<Scope>::empty()) == entries(out@));
                    }
                    return;
                },
            }
        }
    }
}

impl VariableScope {
    pub fn new(name: StringIndex, ty: Sym, mutable: bool) -> (r: Self)
        ensures
            r == (VariableScope { name, ty, mutable }),
    {
        VariableScope { name, ty, mutable }
    }

    pub fn ty(&self) -> (r: Sym)
        ensures
            r == self.ty,
    {
        self.ty
    }

    pub fn name(&self) -> (r: StringIndex)
        ensures
            r == self.name,
    {
        self.name
    }

    pub fn is_mutable(&self) -> (r: bool)
        ensures
            r == self.mutable,
    {
        self.mutable
    }
}

impl GenericsScope {
    pub fn new(generics: Vec<(BoundedGeneric, Sym)>) -> (r: Self)
        ensures
            r.generics == generics,
    {
        GenericsScope { generics }
    }
}

impl FunctionScope {
    pub fn new(ret: Sym, ret_source: SourceRange) -> (r: Self)
        ensures
            r == (FunctionScope { ret, ret_source }),
    {
        FunctionScope { ret, ret_source }
    }
}


/// A variable that the lookup of `name` finds is named `name`.
pub proof fn law_found_variable_is_named(c: Seq<Scope>, name: StringIndex, requester: Option<NamespaceId>, fence: bool,
                                         captured: bool, symbols: SymbolMap, namespaces: NamespaceMap)
    ensures
        var_walk(c, name, requester, fence, captured, symbols, namespaces) matches Ok((v, _)) ==> v.name == name,
    decreases c.len(),
{
    if c.len() > 0 {
        let s = c[0];
        law_found_variable_is_named(c.drop_first(), name, requester, fence || s.kind is NamespaceFence,
                                    captured || s.kind is Closure, symbols, namespaces);
    }
}

/// Scopes of these kinds name no symbol: a symbol lookup passes over them.
pub open spec fn names_no_symbol(k: ScopeKind) -> bool {
    k is Loop || k is Function || k is Closure || k is VariableScope || k is Root
}

/// The enclosing function is the innermost one: when the first function
/// scope along `c` is at position `k`, that is the function found, however
/// many functions enclose it further out.
pub proof fn law_innermost_function_is_found(c: Seq<Scope>, k: int)
    requires
        0 <= k < c.len(),
        c[k].kind is Function,
        forall|j: int| 0 <= j < k ==> !(#[trigger] c[j].kind is Function),
    ensures
        first_func(c) == Some(c[k].kind->Function_0),
    decreases k,
{
    if k > 0 {
        let rest = c.drop_first();
        assert forall|j: int| 0 <= j < k - 1 implies !(#[trigger] rest[j].kind is Function) by {
            assert(rest[j] == c[j + 1]);
        }
        assert(rest[k - 1] == c[k]);
        law_innermost_function_is_found(rest, k - 1);
    }
}

/// Without a function scope along `c` no function is found, and a function
/// found is one of the scopes of `c`.
pub proof fn law_function_found_is_on_chain(c: Seq<Scope>)
    ensures
        first_func(c) is None <==> forall|j: int| 0 <= j < c.len() ==> !(#[trigger] c[j].kind is Function),
        first_func(c) matches Some(f) ==> exists|j: int| 0 <= j < c.len() && (#[trigger] c[j]).kind == ScopeKind::Function(f),
    decreases c.len(),
{
    if c.len() > 0 {
        let rest = c.drop_first();
        law_function_found_is_on_chain(rest);
        if c[0].kind is Function {
            assert(c[0].kind == ScopeKind::Function(c[0].kind->Function_0));
        } else {
            assert forall|j: int| 0 <= j < c.len() && j > 0 implies c[j] == rest[j - 1] by {}
            if let Some(f) = first_func(c) {
                let j = choose|j: int| 0 <= j < rest.len() && (#[trigger] rest[j]).kind == ScopeKind::Function(f);
                assert(c[j + 1] == rest[j]);
            }
            if first_func(c) is None {
                assert forall|j: int| 0 <= j < c.len() implies !(#[trigger] c[j].kind is Function) by {
                    if j > 0 {
                        assert(c[j] == rest[j - 1]);
                    }
                }
            } else {
                assert(!(forall|j: int| 0 <= j < rest.len() ==> !(#[trigger] rest[j].kind is Function)));
                let j = choose|j: int| !(0 <= j < rest.len() ==> !(#[trigger] rest[j].kind is Function));
                assert(c[j + 1] == rest[j]);
            }
        }
    }
}

/// An alias names what it stands for: when the first scope along `c` that
/// names a symbol is an alias of `name` for the symbol `s` applied to any
/// generic arguments, empty or not, the lookup of `name` gives `s`, on
/// behalf of any requester.
pub proof fn law_alias_names_its_symbol(c: Seq<Scope>, k: int, name: StringIndex, requester: NamespaceId,
                                        symbols: SymbolMap, namespaces: NamespaceMap)
    requires
        0 <= k < c.len(),
        c[k].kind matches ScopeKind::AliasDecl(n, g) && n == name && g.kind is Sym,
        forall|j: int| 0 <= j < k ==> names_no_symbol(#[trigger] c[j].kind),
    ensures
        sym_walk(c, name, requester, symbols, namespaces)
            == SymbolGetResult::Symbol(c[k].kind->AliasDecl_1.kind->Sym_0),
    decreases k,
{
    if k > 0 {
        let rest = c.drop_first();
        assert(names_no_symbol(c[0].kind));
        assert forall|j: int| 0 <= j < k - 1 implies names_no_symbol(#[trigger] rest[j].kind) by {
            assert(rest[j] == c[j + 1]);
        }
        assert(rest[k - 1] == c[k]);
        law_alias_names_its_symbol(rest, k - 1, name, requester, symbols, namespaces);
    }
}

/// The requester of a symbol lookup is the innermost implicit namespace:
/// when the first one along `c` is at position `k`, its namespace is the
/// requester, however many enclose it further out.
pub proof fn law_requester_is_innermost_namespace(c: Seq<Scope>, k: int)
    requires
        0 <= k < c.len(),
        c[k].kind is ImplicitNamespace,
        forall|j: int| 0 <= j < k ==> !(#[trigger] c[j].kind is ImplicitNamespace),
    ensures
        first_implicit_ns(c) == Some(c[k].kind->ImplicitNamespace_0),
    decreases k,
{
    if k > 0 {
        let rest = c.drop_first();
        assert forall|j: int| 0 <= j < k - 1 implies !(#[trigger] rest[j].kind is ImplicitNamespace) by {
            assert(rest[j] == c[j + 1]);
        }
        assert(rest[k - 1] == c[k]);
        law_requester_is_innermost_namespace(rest, k - 1);
    }
}

/// Code inside a namespace sees that namespace's own symbols, private ones
/// too: when the first scope along `c` that names a symbol is the implicit
/// namespace `ns`, and `ns` holds `name` as the symbol `s`, the lookup of
/// `name` from the start of `c` (as `find_sym` makes it) gives `s`.
pub proof fn law_namespace_sees_its_own_symbols(c: Seq<Scope>, k: int, name: StringIndex, s: SymbolId,
                                                symbols: SymbolMap, namespaces: NamespaceMap)
    requires
        0 <= k < c.len(),
        c[k].kind is ImplicitNamespace,
        forall|j: int| 0 <= j < k ==> names_no_symbol(#[trigger] c[j].kind),
        namespaces.entry_of(c[k].kind->ImplicitNamespace_0, name) matches Some(e) && e.result == Ok::<SymbolId, Error>(s),
    ensures
        first_implicit_ns(c) == Some(c[k].kind->ImplicitNamespace_0),
        (match first_implicit_ns(c) {
            Some(req) => sym_walk(c, name, req, symbols, namespaces),
            None => SymbolGetResult::Undefined,
        }) == SymbolGetResult::Symbol(s),
    decreases k,
{
    let ns = c[k].kind->ImplicitNamespace_0;
    assert forall|j: int| 0 <= j < k implies !(#[trigger] c[j].kind is ImplicitNamespace) by {
        assert(names_no_symbol(c[j].kind));
    }
    law_requester_is_innermost_namespace(c, k);
    lemma_walk_reaches_namespace(c, k, name, ns, symbols, namespaces);
}

/// The lookup along `c` on behalf of `ns` passes over the scopes before `k`
/// and finds in namespace `ns` what it holds under `name`.
proof fn lemma_walk_reaches_namespace(c: Seq<Scope>, k: int, name: StringIndex, ns: NamespaceId,
                                      symbols: SymbolMap, namespaces: NamespaceMap)
    requires
        0 <= k < c.len(),
        c[k].kind == ScopeKind::ImplicitNamespace(ns),
        forall|j: int| 0 <= j < k ==> names_no_symbol(#[trigger] c[j].kind),
        namespaces.entry_of(ns, name) matches Some(e) && e.result is Ok,
    ensures
        sym_walk(c, name, ns, symbols, namespaces)
            == SymbolGetResult::Symbol(namespaces.entry_of(ns, name)->Some_0.result->Ok_0),
    decreases k,
{
    if k > 0 {
        let rest = c.drop_first();
        assert(names_no_symbol(c[0].kind));
        assert forall|j: int| 0 <= j < k - 1 implies names_no_symbol(#[trigger] rest[j].kind) by {
            assert(rest[j] == c[j + 1]);
        }
        assert(rest[k - 1] == c[k]);
        lemma_walk_reaches_namespace(rest, k - 1, name, ns, symbols, namespaces);
    } else {
        assert(is_ancestor(namespaces.map@, ns, ns));
    }
}

/// The captures only grow: whatever a closure captured before, it still
/// captures, and no closure is added or lost.
proof fn lemma_add_captures_keeps(cls: Seq<Seq<(StringIndex, Sym)>>, c: Seq<Scope>, name: StringIndex, ty: Sym, k: int)
    requires
        0 <= k < c.len(),
        c[k].kind matches ScopeKind::VariableScope(v) && v.name == name,
        forall|j: int| 0 <= j < k ==> !(#[trigger] c[j].kind matches ScopeKind::VariableScope(v) && v.name == name),
        forall|j: int| 0 <= j < k ==> (#[trigger] c[j].kind matches ScopeKind::Closure(id) ==> id.0 < cls.len()),
    ensures
        add_captures(cls, c, name, ty).len() == cls.len(),
        forall|i: int, x: (StringIndex, Sym)| #![trigger add_captures(cls, c, name, ty)[i].contains(x)]
            0 <= i < cls.len() && cls[i].contains(x) ==> add_captures(cls, c, name, ty)[i].contains(x),
    decreases k,
{
    if k > 0 {
        let rest = c.drop_first();
        assert(!(c[0].kind matches ScopeKind::VariableScope(v) && v.name == name));
        assert forall|j: int| 0 <= j < k - 1 implies !(#[trigger] rest[j].kind matches ScopeKind::VariableScope(v) && v.name == name) by {
            assert(rest[j] == c[j + 1]);
        }
        assert(rest[k - 1] == c[k]);
        if let ScopeKind::Closure(id) = c[0].kind {
            assert(c[0].kind matches ScopeKind::Closure(id) ==> id.0 < cls.len());
            let cls2 = with_capture(cls, id, name, ty);
            assert forall|j: int| 0 <= j < k - 1 implies (#[trigger] rest[j].kind matches ScopeKind::Closure(id) ==> id.0 < cls2.len()) by {
                assert(rest[j] == c[j + 1]);
                assert(c[j + 1].kind matches ScopeKind::Closure(id) ==> id.0 < cls.len());
            }
            lemma_add_captures_keeps(cls2, rest, name, ty, k - 1);
            assert forall|i: int, x: (StringIndex, Sym)| #![trigger add_captures(cls, c, name, ty)[i].contains(x)]
                0 <= i < cls.len() && cls[i].contains(x) implies add_captures(cls, c, name, ty)[i].contains(x) by {
                lemma_capture_keeps(cls, id, name, ty, i, x);
            }
        } else {
            assert forall|j: int| 0 <= j < k - 1 implies (#[trigger] rest[j].kind matches ScopeKind::Closure(id) ==> id.0 < cls.len()) by {
                assert(rest[j] == c[j + 1]);
            }
            lemma_add_captures_keeps(cls, rest, name, ty, k - 1);
        }
    }
}

/// One capture keeps what every closure captured, and the closure that
/// captures then holds the variable.
proof fn lemma_capture_keeps(cls: Seq<Seq<(StringIndex, Sym)>>, id: ClosureId, name: StringIndex, ty: Sym,
                             i: int, x: (StringIndex, Sym))
    requires
        id.0 < cls.len(),
        0 <= i < cls.len(),
    ensures
        with_capture(cls, id, name, ty).len() == cls.len(),
        with_capture(cls, id, name, ty)[id.0 as int].contains((name, ty)),
        cls[i].contains(x) ==> with_capture(cls, id, name, ty)[i].contains(x),
{
    let o = cls[id.0 as int];
    if !o.contains((name, ty)) {
        assert(o.push((name, ty))[o.len() as int] == (name, ty));
    }
    if cls[i].contains(x) && i == id.0 && !o.contains((name, ty)) {
        let w = choose|w: int| 0 <= w < o.len() && o[w] == x;
        assert(o.push((name, ty))[w] == x);
    }
}

/// Every closure passed on the way to the variable captures it: when the
/// variable named `name` is first met at position `k` of `c`, each closure
/// scope before it records `(name, ty)`, not only the nearest one.
pub proof fn law_every_closure_passed_captures(cls: Seq<Seq<(StringIndex, Sym)>>, c: Seq<Scope>, name: StringIndex,
                                               ty: Sym, k: int, j: int)
    requires
        0 <= j < k < c.len(),
        c[k].kind matches ScopeKind::VariableScope(v) && v.name == name,
        forall|i: int| 0 <= i < k ==> !(#[trigger] c[i].kind matches ScopeKind::VariableScope(v) && v.name == name),
        forall|i: int| 0 <= i < k ==> (#[trigger] c[i].kind matches ScopeKind::Closure(id) ==> id.0 < cls.len()),
        c[j].kind is Closure,
    ensures
        add_captures(cls, c, name, ty).len() == cls.len(),
        add_captures(cls, c, name, ty)[c[j].kind->Closure_0.0 as int].contains((name, ty)),
    decreases j,
{
    let rest = c.drop_first();
    assert(!(c[0].kind matches ScopeKind::VariableScope(v) && v.name == name));
    assert forall|i: int| 0 <= i < k - 1 implies !(#[trigger] rest[i].kind matches ScopeKind::VariableScope(v) && v.name == name) by {
        assert(rest[i] == c[i + 1]);
    }
    assert(rest[k - 1] == c[k]);
    assert(c[j].kind matches ScopeKind::Closure(id) ==> id.0 < cls.len());
    lemma_add_captures_keeps(cls, c, name, ty, k);
    if let ScopeKind::Closure(id) = c[0].kind {
        assert(c[0].kind matches ScopeKind::Closure(id) ==> id.0 < cls.len());
        let cls2 = with_capture(cls, id, name, ty);
        lemma_capture_keeps(cls, id, name, ty, id.0 as int, (name, ty));
        assert forall|i: int| 0 <= i < k - 1 implies (#[trigger] rest[i].kind matches ScopeKind::Closure(id) ==> id.0 < cls2.len()) by {
            assert(rest[i] == c[i + 1]);
            assert(c[i + 1].kind matches ScopeKind::Closure(id) ==> id.0 < cls.len());
        }
        if j == 0 {
            lemma_add_captures_keeps(cls2, rest, name, ty, k - 1);
        } else {
            assert(rest[j - 1] == c[j]);
            law_every_closure_passed_captures(cls2, rest, name, ty, k - 1, j - 1);
        }
    } else {
        assert forall|i: int| 0 <= i < k - 1 implies (#[trigger] rest[i].kind matches ScopeKind::Closure(id) ==> id.0 < cls.len()) by {
            assert(rest[i] == c[i + 1]);
        }
        assert(rest[j - 1] == c[j]);
        law_every_closure_passed_captures(cls, rest, name, ty, k - 1, j - 1);
    }
}

/// The trait in scope is the innermost one: when the first trait scope
/// along `c` is at position `k`, its trait is the one found.
pub proof fn law_innermost_trait_is_found(c: Seq<Scope>, k: int)
    requires
        0 <= k < c.len(),
        c[k].kind is ImplicitTrait,
        forall|j: int| 0 <= j < k ==> !(#[trigger] c[j].kind is ImplicitTrait),
    ensures
        first_trait(c) == Some(c[k].kind->ImplicitTrait_0),
    decreases k,
{
    if k > 0 {
        let rest = c.drop_first();
        assert forall|j: int| 0 <= j < k - 1 implies !(#[trigger] rest[j].kind is ImplicitTrait) by {
            assert(rest[j] == c[j + 1]);
        }
        assert(rest[k - 1] == c[k]);
        law_innermost_trait_is_found(rest, k - 1);
    }
}

/// The qualified type in scope is the innermost one: when the first
/// qualified type namespace along `c` is at position `k`, its type is the
/// one found.
pub proof fn law_innermost_qualified_type_is_found(c: Seq<Scope>, k: int)
    requires
        0 <= k < c.len(),
        c[k].kind is QualifiedTypeNamespace,
        forall|j: int| 0 <= j < k ==> !(#[trigger] c[j].kind is QualifiedTypeNamespace),
    ensures
        first_qualified_type(c) == Some(c[k].kind->QualifiedTypeNamespace_0),
    decreases k,
{
    if k > 0 {
        let rest = c.drop_first();
        assert forall|j: int| 0 <= j < k - 1 implies !(#[trigger] rest[j].kind is QualifiedTypeNamespace) by {
            assert(rest[j] == c[j + 1]);
        }
        assert(rest[k - 1] == c[k]);
        law_innermost_qualified_type_is_found(rest, k - 1);
    }
}

/// `Self` is the innermost alias of that name: when the first alias of
/// `self_ty` along `c` is at position `k`, what it stands for is found,
/// whatever it stands for.
pub proof fn law_innermost_self_is_found(c: Seq<Scope>, k: int, self_ty: StringIndex)
    requires
        0 <= k < c.len(),
        c[k].kind matches ScopeKind::AliasDecl(n, _) && n == self_ty,
        forall|j: int| 0 <= j < k ==> !(#[trigger] c[j].kind matches ScopeKind::AliasDecl(n, _) && n == self_ty),
    ensures
        first_self(c, self_ty) == Some(c[k].kind->AliasDecl_1),
    decreases k,
{
    if k > 0 {
        let rest = c.drop_first();
        assert forall|j: int| 0 <= j < k - 1 implies !(#[trigger] rest[j].kind matches ScopeKind::AliasDecl(n, _) && n == self_ty) by {
            assert(rest[j] == c[j + 1]);
        }
        assert(rest[k - 1] == c[k]);
        law_innermost_self_is_found(rest, k - 1, self_ty);
    }
}

/// A generic is found in the innermost generics scope that names it, as
/// its first entry of that name: when that scope is at position `k` of `c`
/// and no namespace fence comes before it, its type for `name` is found.
pub proof fn law_innermost_generic_is_found(c: Seq<Scope>, k: int, name: StringIndex)
    requires
        0 <= k < c.len(),
        c[k].kind matches ScopeKind::Generics(g) && first_gen(g.generics@, name) is Some,
        forall|j: int| 0 <= j < k ==> !(#[trigger] c[j].kind is NamespaceFence),
        forall|j: int| 0 <= j < k ==> !(#[trigger] c[j].kind matches ScopeKind::Generics(g) && first_gen(g.generics@, name) is Some),
    ensures
        gen_walk(c, name) == first_gen(c[k].kind->Generics_0.generics@, name),
        gen_walk(c, name) is Some,
    decreases k,
{
    if k > 0 {
        let rest = c.drop_first();
        assert(!(c[0].kind is NamespaceFence));
        assert(!(c[0].kind matches ScopeKind::Generics(g) && first_gen(g.generics@, name) is Some));
        assert forall|j: int| 0 <= j < k - 1 implies !(#[trigger] rest[j].kind is NamespaceFence) by {
            assert(rest[j] == c[j + 1]);
        }
        assert forall|j: int| 0 <= j < k - 1 implies !(#[trigger] rest[j].kind matches ScopeKind::Generics(g) && first_gen(g.generics@, name) is Some) by {
            assert(rest[j] == c[j + 1]);
        }
        assert(rest[k - 1] == c[k]);
        law_innermost_generic_is_found(rest, k - 1, name);
    }
}

/// The first generic of a name is an entry of that name: what `first_gen`
/// gives is the type of the earliest entry named `name`.
pub proof fn law_first_generic_of_name(gs: Seq<(BoundedGeneric, Sym)>, name: StringIndex, k: int)
    requires
        0 <= k < gs.len(),
        gs[k].0.name == name,
        forall|j: int| 0 <= j < k ==> (#[trigger] gs[j]).0.name != name,
    ensures
        first_gen(gs, name) == Some(gs[k].1),
    decreases k,
{
    if k > 0 {
        let rest = gs.drop_first();
        assert(gs[0].0.name != name);
        assert forall|j: int| 0 <= j < k - 1 implies (#[trigger] rest[j]).0.name != name by {
            assert(rest[j] == gs[j + 1]);
        }
        assert(rest[k - 1] == gs[k]);
        law_first_generic_of_name(rest, name, k - 1);
    }
}

/// A namespace fence hides what lies beyond it: when a fence comes along
/// `c` before any scope that names a symbol or a generic, neither a symbol
/// lookup nor a generic lookup finds anything.
pub proof fn law_fence_hides_beyond(c: Seq<Scope>, k: int, name: StringIndex, requester: NamespaceId,
                                    symbols: SymbolMap, namespaces: NamespaceMap)
    requires
        0 <= k < c.len(),
        c[k].kind is NamespaceFence,
        forall|j: int| 0 <= j < k ==> names_no_symbol(#[trigger] c[j].kind),
    ensures
        sym_walk(c, name, requester, symbols, namespaces) == SymbolGetResult::Undefined,
        gen_walk(c, name) is None,
    decreases k,
{
    if k > 0 {
        let rest = c.drop_first();
        assert(names_no_symbol(c[0].kind));
        assert forall|j: int| 0 <= j < k - 1 implies names_no_symbol(#[trigger] rest[j].kind) by {
            assert(rest[j] == c[j + 1]);
        }
        assert(rest[k - 1] == c[k]);
        law_fence_hides_beyond(rest, k - 1, name, requester, symbols, namespaces);
    }
}

/// Only the closures passed on the way capture, and only the variable,
/// once: a closure that is not one of the scopes before the variable keeps
/// its captures, and any closure gains at most the entry `(name, ty)`,
/// which it did not hold before.
pub proof fn law_only_closures_passed_capture(cls: Seq<Seq<(StringIndex, Sym)>>, c: Seq<Scope>, name: StringIndex,
                                              ty: Sym, k: int, i: int)
    requires
        0 <= k < c.len(),
        c[k].kind matches ScopeKind::VariableScope(v) && v.name == name,
        forall|j: int| 0 <= j < k ==> !(#[trigger] c[j].kind matches ScopeKind::VariableScope(v) && v.name == name),
        forall|j: int| 0 <= j < k ==> (#[trigger] c[j].kind matches ScopeKind::Closure(id) ==> id.0 < cls.len()),
        0 <= i < cls.len(),
    ensures
        add_captures(cls, c, name, ty)[i] == cls[i]
            || (!cls[i].contains((name, ty)) && add_captures(cls, c, name, ty)[i] == cls[i].push((name, ty))),
        (forall|j: int| 0 <= j < k ==> !(#[trigger] c[j].kind matches ScopeKind::Closure(id) && id.0 == i))
            ==> add_captures(cls, c, name, ty)[i] == cls[i],
    decreases k,
{
    if k > 0 {
        let rest = c.drop_first();
        assert(!(c[0].kind matches ScopeKind::VariableScope(v) && v.name == name));
        assert forall|j: int| 0 <= j < k - 1 implies !(#[trigger] rest[j].kind matches ScopeKind::VariableScope(v) && v.name == name) by {
            assert(rest[j] == c[j + 1]);
        }
        assert(rest[k - 1] == c[k]);
        if (forall|j: int| 0 <= j < k ==> !(#[trigger] c[j].kind matches ScopeKind::Closure(id) && id.0 == i)) {
            assert forall|j: int| 0 <= j < k - 1 implies !(#[trigger] rest[j].kind matches ScopeKind::Closure(id) && id.0 == i) by {
                assert(rest[j] == c[j + 1]);
                assert(!(c[j + 1].kind matches ScopeKind::Closure(id) && id.0 == i));
            }
        }
        if let ScopeKind::Closure(id) = c[0].kind {
            assert(c[0].kind matches ScopeKind::Closure(id) ==> id.0 < cls.len());
            let cls2 = with_capture(cls, id, name, ty);
            lemma_capture_keeps(cls, id, name, ty, i, (name, ty));
            assert forall|j: int| 0 <= j < k - 1 implies (#[trigger] rest[j].kind matches ScopeKind::Closure(id) ==> id.0 < cls2.len()) by {
                assert(rest[j] == c[j + 1]);
                assert(c[j + 1].kind matches ScopeKind::Closure(id) ==> id.0 < cls.len());
            }
            law_only_closures_passed_capture(cls2, rest, name, ty, k - 1, i);
            if cls2[i] != cls[i] {
                assert(cls2[i] == cls[i].push((name, ty)));
                assert(cls2[i][cls[i].len() as int] == (name, ty));
                assert(cls2[i].contains((name, ty)));
            }
        } else {
            assert forall|j: int| 0 <= j < k - 1 implies (#[trigger] rest[j].kind matches ScopeKind::Closure(id) ==> id.0 < cls.len()) by {
                assert(rest[j] == c[j + 1]);
            }
            law_only_closures_passed_capture(cls, rest, name, ty, k - 1, i);
        }
    }
}

} // verus!
