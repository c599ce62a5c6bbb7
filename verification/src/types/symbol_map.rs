use vstd::prelude::*;

use crate::errors::Error;
use crate::ids::{NamespaceId, SourceRange, StringIndex};
use crate::namespace::{Namespace, NamespaceMap, SymbolEntry, Visibility, add_all};
use crate::types::ty::{Type, lemma_extends_refl, lemma_extends_trans, lemma_ranks_kept_trans};
use crate::types::containers::{Container, ContainerKind};
use crate::types::func::{FunctionArgument, FunctionKind, FunctionTy};
use crate::types::min_nat;
use crate::types::{
    count_unbound, Generic, GenericKind, GenListId, Symbol, SymbolId, SymbolKind, SymbolMap, Var,
    VarId,
};

verus! {

/// The highest rank among the types of `s`, or 0 when there is none.
pub open spec fn max_rank(m: SymbolMap, s: Seq<(StringIndex, Type)>) -> nat
    decreases s.len(),
{
    if s.len() == 0 {
        0
    } else {
        let r = m.ty_rank(s.last().1);
        let rest = max_rank(m, s.drop_last());
        if r > rest { r } else { rest }
    }
}

proof fn lemma_max_rank(m: SymbolMap, s: Seq<(StringIndex, Type)>, i: int)
    requires
        0 <= i < s.len(),
    ensures
        m.ty_rank(s[i].1) <= max_rank(m, s),
    decreases s.len(),
{
    if i < s.len() - 1 {
        lemma_max_rank(m, s.drop_last(), i);
    }
}

/// The list of generic arguments that pairs each parameter name with the
/// argument in the same position, as far as both go.
pub open spec fn zip_gens(names: Seq<StringIndex>, args: Seq<Type>) -> Seq<(StringIndex, Type)> {
    let n = if names.len() < args.len() { names.len() } else { args.len() };
    Seq::new(n, |i: int| (names[i], args[i]))
}

/// `a` and `b` are the same tree of generics: the same ranges, parameter
/// names and symbols, in the same places.
pub open spec fn same_generic(a: Generic, b: Generic) -> bool
    decreases a,
{
    &&& a.range == b.range
    &&& match (a.kind, b.kind) {
        (GenericKind::Generic(x), GenericKind::Generic(y)) => x == y,
        (GenericKind::Sym(s, v), GenericKind::Sym(t, w)) => {
            &&& s == t
            &&& v@.len() == w@.len()
            &&& forall|i: int| 0 <= i < v@.len() ==> same_generic(#[trigger] v@[i], w@[i])
        },
        _ => false,
    }
}

impl Symbol {
    pub fn new(name: StringIndex, generics: Vec<StringIndex>, kind: SymbolKind) -> (r: Self)
        ensures
            r.name == name,
            r.generics == generics,
            r.kind == kind,
    {
        Symbol { name, generics, kind }
    }
}

impl Generic {
    pub fn new(range: SourceRange, kind: GenericKind) -> (r: Self)
        ensures
            r.range == range,
            r.kind == kind,
    {
        Generic { range, kind }
    }

    /// A copy of this tree of generics.
    pub fn duplicate(&self) -> (r: Generic)
        ensures
            same_generic(*self, r),
        decreases self,
    {
        match &self.kind {
            GenericKind::Generic(v) => Generic { range: self.range, kind: GenericKind::Generic(*v) },
            GenericKind::Sym(sym, args) => {
                let mut out: Vec<Generic> = Vec::new();
                let mut i: usize = 0;
                while i < args.len()
                    invariant
                        0 <= i <= args@.len(),
                        out@.len() == i,
                        self.kind == GenericKind::Sym(*sym, *args),
                        forall|j: int| 0 <= j < i ==> same_generic(#[trigger] args@[j], out@[j]),
                    decreases args@.len() - i,
                {
                    proof {
                        vstd::std_specs::vec::axiom_vec_index_decreases(*args, i as int);
                        assert(self.kind->Sym_1 == *args);
                        assert(decreases_to!(self.kind => self.kind->Sym_1));
                        assert(decreases_to!(*self => self.kind));
                    }
                    let g = args[i].duplicate();
                    out.push(g);
                    i = i + 1;
                }
                Generic { range: self.range, kind: GenericKind::Sym(*sym, out) }
            },
        }
    }

    /// The symbol this generic names directly, if it is not a parameter.
    pub fn sym(&self) -> (r: Option<SymbolId>)
        ensures
            r == match self.kind {
                GenericKind::Generic(_) => None,
                GenericKind::Sym(s, _) => Some(s),
            },
    {
        match self.kind {
            GenericKind::Generic(_) => None,
            GenericKind::Sym(v, _) => Some(v),
        }
    }
}

impl SymbolMap {
    /// Every symbol's namespace exists in `ns_map`.
    pub open spec fn ns_ok(&self, ns_map: &NamespaceMap) -> bool {
        forall|i: int| 0 <= i < self.syms@.len() ==> #[trigger] self.syms@[i].1.0 < ns_map.map@.len()
    }

    /// `self` and `m2` differ at most in the symbol table.
    pub open spec fn same_types(&self, m2: &SymbolMap) -> bool {
        &&& m2.tys@ == self.tys@
        &&& m2.vars@ == self.vars@
        &&& m2.rank_v@ == self.rank_v@
        &&& m2.rank_g@ == self.rank_g@
    }

    /// Reserves a symbol id together with a fresh namespace named `path`;
    /// the symbol itself is filled in later by `add_sym`.
    pub fn pending(&mut self, ns_map: &mut NamespaceMap, path: StringIndex) -> (r: SymbolId)
        requires
            old(ns_map).wf(),
            old(ns_map).map@.len() < u32::MAX,
            old(self).syms@.len() < u32::MAX,
            old(self).ns_ok(old(ns_map)),
        ensures
            final(ns_map).wf(),
            final(self).ns_ok(final(ns_map)),
            old(self).same_types(final(self)),
            r.0 == old(self).syms@.len(),
            final(self).syms@ == old(self).syms@.push((None, NamespaceId(old(ns_map).map@.len() as u32))),
            final(ns_map).map@.len() == old(ns_map).map@.len() + 1,
            forall|i: int| 0 <= i < old(ns_map).map@.len() ==> final(ns_map).map@[i] == old(ns_map).map@[i],
            final(ns_map).map@.last().symbols@ == Map::<u32, crate::namespace::SymbolEntry>::empty(),
            final(ns_map).map@.last().path == path,
            final(ns_map).map@.last().parent is None,
    {
        let ns = ns_map.push(Namespace::new(path), None);
        let id = SymbolId(self.syms.len() as u32);
        self.syms.push((None, ns));
        id
    }

    /// Fills in the symbol reserved under `id`.
    pub fn add_sym(&mut self, id: SymbolId, sym: Symbol)
        requires
            id.0 < old(self).syms@.len(),
        ensures
            old(self).same_types(final(self)),
            final(self).syms@ == old(self).syms@.update(id.0 as int, (Some(sym), old(self).syms@[id.0 as int].1)),
    {
        let ns = self.syms[id.0 as usize].1;
        self.syms.set(id.0 as usize, (Some(sym), ns));
    }

    /// The symbol registered under `id`.
    pub fn sym(&self, id: SymbolId) -> (r: &Symbol)
        requires
            id.0 < self.syms@.len(),
            self.syms@[id.0 as int].0 is Some,
        ensures
            Some(*r) == self.syms@[id.0 as int].0,
    {
        self.syms[id.0 as usize].0.as_ref().unwrap()
    }

    /// The namespace of the symbol `id`.
    pub fn sym_ns(&self, id: SymbolId) -> (r: NamespaceId)
        requires
            id.0 < self.syms@.len(),
        ensures
            r == self.syms@[id.0 as int].1,
    {
        self.syms[id.0 as usize].1
    }

    /// A new unbound inference variable.
    pub fn new_var(&mut self, range: SourceRange) -> (r: Type)
        requires
            old(self).wf(),
        ensures
            final(self).wf(),
            old(self).extends(*final(self)),
            final(self).vars@ == old(self).vars@.push(Var { sub: None, range }),
            final(self).tys@ == old(self).tys@,
            final(self).unbound_count() == old(self).unbound_count() + 1,
            r == Type::Var(VarId(old(self).vars@.len() as usize)),
            final(self).ty_ok(r),
    {
        let ghost m = *self;
        let id = VarId(self.vars.len());
        self.vars.push(Var { sub: None, range });
        self.rank_v = Ghost(self.rank_v@.push(0));
        proof {
            let m2 = *self;
            assert(m2.vars@.drop_last() =~= m.vars@);
            assert forall|t: Type| m.ty_ok(t) implies #[trigger] m2.ty_rank(t) == m.ty_rank(t) by {}
            assert forall|g: int, j: int| 0 <= g < m2.tys@.len() && 0 <= j < m2.gl(g).len() implies {
                &&& m2.ty_ok(#[trigger] m2.gl(g)[j].1)
                &&& m2.ty_rank(m2.gl(g)[j].1) < m2.rank_g@[g]
            } by {
                assert(m.ty_ok(m.gl(g)[j].1));
            }
            assert forall|v: int| 0 <= v < m2.vars@.len() implies match #[trigger] m2.vars@[v].sub {
                Some(s) => m2.ty_ok(s) && m2.ty_rank(s) < m2.rank_v@[v],
                None => true,
            } by {
                if v < m.vars@.len() {
                    assert(m2.vars@[v] == m.vars@[v]);
                    assert(m.vars@[v].sub == m.vars@[v].sub);
                }
            }
        }
        Type::Var(id)
    }

    /// Registers a list of generic arguments; the empty list is always
    /// `GenListId::EMPTY`.
    pub fn add_gens(&mut self, generics: Vec<(StringIndex, Type)>) -> (r: GenListId)
        requires
            old(self).wf(),
            forall|i: int| 0 <= i < generics@.len() ==> old(self).ty_ok(#[trigger] generics@[i].1),
        ensures
            final(self).wf(),
            old(self).extends(*final(self)),
            old(self).ranks_kept(*final(self)),
            final(self).vars@ == old(self).vars@,
            generics@.len() == 0 ==> r.0 == GenListId::EMPTY && *final(self) == *old(self),
            generics@.len() > 0 ==> r.0 == old(self).tys@.len(),
            r.0 < final(self).tys@.len(),
            final(self).gl(r.0 as int) == generics@,
    {
        if generics.len() == 0 {
            return GenListId(GenListId::EMPTY);
        }
        let ghost m = *self;
        let ghost s = generics@;
        let id = GenListId(self.tys.len());
        self.tys.push(generics);
        self.rank_g = Ghost(self.rank_g@.push(max_rank(m, s) + 1));
        proof {
            let m2 = *self;
            assert forall|g: int| 0 <= g < m.tys@.len() implies #[trigger] m2.gl(g) == m.gl(g) by {
                assert(m2.tys@[g] == m.tys@[g]);
            }
            assert forall|g: int, j: int| 0 <= g < m2.tys@.len() && 0 <= j < m2.gl(g).len() implies {
                &&& m2.ty_ok(#[trigger] m2.gl(g)[j].1)
                &&& m2.ty_rank(m2.gl(g)[j].1) < m2.rank_g@[g]
            } by {
                if g < m.tys@.len() {
                    assert(m2.gl(g) == m.gl(g));
                    assert(m.ty_ok(m.gl(g)[j].1));
                } else {
                    assert(m2.gl(g) == s);
                    lemma_max_rank(m, s, j);
                }
            }
            assert forall|v: int| 0 <= v < m2.vars@.len() implies match #[trigger] m2.vars@[v].sub {
                Some(t) => m2.ty_ok(t) && m2.ty_rank(t) < m2.rank_v@[v],
                None => true,
            } by {
                assert(m.vars@[v].sub == m.vars@[v].sub);
            }
        }
        id
    }
}


impl SymbolMap {
    /// The generic parameter names of the defined symbol `id`.
    pub open spec fn sym_gens(&self, id: SymbolId) -> Seq<StringIndex> {
        self.syms@[id.0 as int].0->Some_0.generics@
    }

    pub open spec fn sym_defined(&self, id: SymbolId) -> bool {
        id.0 < self.syms@.len() && self.syms@[id.0 as int].0 is Some
    }

    /// The type of symbol `ty` applied to `generics`, each argument paired
    /// with the parameter in the same position (as far as both go).
    pub fn get_ty(&mut self, ty: SymbolId, generics: &[Type]) -> (r: Type)
        requires
            old(self).wf(),
            old(self).sym_defined(ty),
            forall|i: int| 0 <= i < generics@.len() ==> old(self).ty_ok(#[trigger] generics@[i]),
        ensures
            final(self).wf(),
            old(self).extends(*final(self)),
            old(self).ranks_kept(*final(self)),
            final(self).vars@ == old(self).vars@,
            r matches Type::Ty(s, g) && s == ty && g.0 < final(self).tys@.len()
                && final(self).gl(g.0 as int) == zip_gens(old(self).sym_gens(ty), generics@)
                && (generics@.len() == 0 ==> g.0 == GenListId::EMPTY),
            final(self).ty_ok(r),
    {
        let n = if self.sym(ty).generics.len() < generics.len() {
            self.sym(ty).generics.len()
        } else {
            generics.len()
        };
        let mut vec: Vec<(StringIndex, Type)> = Vec::new();
        let mut i: usize = 0;
        while i < n
            invariant
                0 <= i <= n,
                self.sym_defined(ty),
                n == zip_gens(self.sym_gens(ty), generics@).len(),
                vec@ =~= zip_gens(self.sym_gens(ty), generics@).subrange(0, i as int),
            decreases n - i,
        {
            vec.push((self.sym(ty).generics[i], generics[i]));
            i = i + 1;
        }
        proof {
            assert(vec@ =~= zip_gens(self.sym_gens(ty), generics@));
        }
        let gens = if generics.len() == 0 {
            GenListId(GenListId::EMPTY)
        } else {
            self.add_gens(vec)
        };
        proof {
            if generics@.len() == 0 {
                lemma_extends_refl(*self);
            }
        }
        Type::Ty(ty, gens)
    }
}



/// The type bound to the first parameter named `v` in `gens`.
pub open spec fn lookup_gen(gens: Seq<(StringIndex, Type)>, v: StringIndex) -> Option<Type>
    decreases gens.len(),
{
    if gens.len() == 0 {
        None
    } else if gens[0].0 == v {
        Some(gens[0].1)
    } else {
        lookup_gen(gens.drop_first(), v)
    }
}

/// The first parameter of `g`, in reading order, that `gens` has no type
/// for, with where it was written.
pub open spec fn first_unknown(g: Generic, gens: Seq<(StringIndex, Type)>) -> Option<(StringIndex, SourceRange)>
    decreases g,
{
    match g.kind {
        GenericKind::Generic(v) => if lookup_gen(gens, v) is Some { None } else { Some((v, g.range)) },
        GenericKind::Sym(_, args) => first_unknown_seq(args@, gens),
    }
}

pub open spec fn first_unknown_seq(args: Seq<Generic>, gens: Seq<(StringIndex, Type)>) -> Option<(StringIndex, SourceRange)>
    decreases args,
{
    if args.len() == 0 {
        None
    } else {
        match first_unknown(args[0], gens) {
            Some(e) => Some(e),
            None => first_unknown_seq(args.drop_first(), gens),
        }
    }
}

/// Every symbol that `g` names is defined in `syms`.
pub open spec fn all_defined(syms: Seq<(Option<Symbol>, NamespaceId)>, g: Generic) -> bool
    decreases g,
{
    match g.kind {
        GenericKind::Generic(_) => true,
        GenericKind::Sym(s, args) => {
            &&& s.0 < syms.len()
            &&& syms[s.0 as int].0 is Some
            &&& forall|i: int| 0 <= i < args@.len() ==> all_defined(syms, #[trigger] args@[i])
        },
    }
}

/// `t` is the type that `g` stands for in map `m`, each parameter taken
/// from `gens`.
pub open spec fn denotes(m: SymbolMap, t: Type, g: Generic, gens: Seq<(StringIndex, Type)>) -> bool
    decreases g,
{
    match g.kind {
        GenericKind::Generic(v) => lookup_gen(gens, v) == Some(t),
        GenericKind::Sym(s, args) => {
            &&& t is Ty
            &&& t->Ty_0 == s
            &&& t->Ty_1.0 < m.tys@.len()
            &&& m.sym_defined(s)
            &&& (args@.len() == 0 ==> t->Ty_1.0 == GenListId::EMPTY)
            &&& m.gl(t->Ty_1.0 as int).len() == min_len(m.sym_gens(s).len(), args@.len())
            &&& forall|i: int| 0 <= i < m.gl(t->Ty_1.0 as int).len() && i < args@.len() ==> {
                &&& (#[trigger] m.gl(t->Ty_1.0 as int)[i]).0 == m.sym_gens(s)[i]
                &&& denotes(m, m.gl(t->Ty_1.0 as int)[i].1, args@[i], gens)
            }
        },
    }
}

pub open spec fn min_len(a: nat, b: nat) -> nat {
    if a < b { a } else { b }
}

proof fn lemma_lookup_gen(gens: Seq<(StringIndex, Type)>, v: StringIndex, i: int)
    requires
        0 <= i <= gens.len(),
        forall|j: int| 0 <= j < i ==> (#[trigger] gens[j]).0 != v,
    ensures
        lookup_gen(gens, v) == lookup_gen(gens.subrange(i, gens.len() as int), v),
    decreases i,
{
    if i > 0 {
        assert(gens[0].0 != v);
        let rest = gens.drop_first();
        assert forall|j: int| 0 <= j < i - 1 implies (#[trigger] rest[j]).0 != v by {
            assert(rest[j] == gens[j + 1]);
        }
        lemma_lookup_gen(rest, v, i - 1);
        assert(rest.subrange(i - 1, rest.len() as int) =~= gens.subrange(i, gens.len() as int));
    } else {
        assert(gens.subrange(0, gens.len() as int) =~= gens);
    }
}

proof fn lemma_lookup_gen_ok(m: SymbolMap, gens: Seq<(StringIndex, Type)>, v: StringIndex)
    requires
        forall|i: int| 0 <= i < gens.len() ==> m.ty_ok(#[trigger] gens[i].1),
    ensures
        lookup_gen(gens, v) matches Some(t) ==> m.ty_ok(t),
    decreases gens.len(),
{
    if gens.len() > 0 {
        assert(m.ty_ok(gens[0].1));
        let rest = gens.drop_first();
        assert forall|i: int| 0 <= i < rest.len() implies m.ty_ok(#[trigger] rest[i].1) by {
            assert(rest[i] == gens[i + 1]);
        }
        lemma_lookup_gen_ok(m, rest, v);
    }
}

proof fn lemma_first_unknown_seq(args: Seq<Generic>, gens: Seq<(StringIndex, Type)>, j: int)
    requires
        0 <= j <= args.len(),
        forall|k: int| 0 <= k < j ==> first_unknown(#[trigger] args[k], gens) is None,
    ensures
        first_unknown_seq(args, gens) == first_unknown_seq(args.subrange(j, args.len() as int), gens),
    decreases j,
{
    if j > 0 {
        assert(first_unknown(args[0], gens) is None);
        let rest = args.drop_first();
        assert forall|k: int| 0 <= k < j - 1 implies first_unknown(#[trigger] rest[k], gens) is None by {
            assert(rest[k] == args[k + 1]);
        }
        lemma_first_unknown_seq(rest, gens, j - 1);
        assert(rest.subrange(j - 1, rest.len() as int) =~= args.subrange(j, args.len() as int));
    } else {
        assert(args.subrange(0, args.len() as int) =~= args);
    }
}

/// What a generic stands for in a map still holds in every map that keeps
/// what the first one holds.
proof fn lemma_denotes_ext(m1: SymbolMap, m2: SymbolMap, t: Type, g: Generic, gens: Seq<(StringIndex, Type)>)
    requires
        m1.extends(m2),
        denotes(m1, t, g, gens),
    ensures
        denotes(m2, t, g, gens),
    decreases g,
{
    if let GenericKind::Sym(s, args) = g.kind {
        let l = t->Ty_1.0 as int;
        assert(m2.gl(l) == m1.gl(l));
        assert forall|i: int| 0 <= i < m2.gl(l).len() && i < args@.len() implies {
            &&& (#[trigger] m2.gl(l)[i]).0 == m2.sym_gens(s)[i]
            &&& denotes(m2, m2.gl(l)[i].1, args@[i], gens)
        } by {
            assert(m1.gl(l)[i] == m2.gl(l)[i]);
            lemma_denotes_ext(m1, m2, m1.gl(l)[i].1, args@[i], gens);
        }
    }
}

impl Generic {
    /// The type this generic stands for, each parameter taken from `gens`
    /// (the first entry with its name); `UnknownType` names the first
    /// parameter, in reading order, that `gens` lacks.
    pub fn to_ty(&self, gens: &[(StringIndex, Type)], map: &mut SymbolMap) -> (r: Result<Type, Error>)
        requires
            old(map).wf(),
            all_defined(old(map).syms@, *self),
            forall|i: int| 0 <= i < gens@.len() ==> old(map).ty_ok(#[trigger] gens@[i].1),
        ensures
            final(map).wf(),
            old(map).extends(*final(map)),
            old(map).ranks_kept(*final(map)),
            final(map).vars@ == old(map).vars@,
            match first_unknown(*self, gens@) {
                Some((v, range)) => r == Err::<Type, Error>(Error::UnknownType(v, range)),
                None => r matches Ok(t) && final(map).ty_ok(t) && denotes(*final(map), t, *self, gens@),
            },
        decreases self,
    {
        let ghost m0 = *map;
        match &self.kind {
            GenericKind::Generic(v) => {
                proof {
                    lemma_extends_refl(m0);
                }
                let mut i: usize = 0;
                while i < gens.len()
                    invariant
                        0 <= i <= gens@.len(),
                        *map == m0,
                        self.kind == GenericKind::Generic(*v),
                        m0 == *old(map),
                        m0.wf(),
                        m0.extends(m0),
                        m0.ranks_kept(m0),
                        forall|j: int| 0 <= j < gens@.len() ==> m0.ty_ok(#[trigger] gens@[j].1),
                        forall|j: int| 0 <= j < i ==> (#[trigger] gens@[j]).0 != *v,
                    decreases gens@.len() - i,
                {
                    if gens[i].0 == *v {
                        proof {
                            lemma_lookup_gen(gens@, *v, i as int);
                            lemma_lookup_gen_ok(m0, gens@, *v);
                            let rest = gens@.subrange(i as int, gens@.len() as int);
                            assert(rest[0] == gens@[i as int]);
                            assert(lookup_gen(gens@, *v) == Some(gens@[i as int].1));
                        }
                        return Ok(gens[i].1);
                    }
                    i = i + 1;
                }
                proof {
                    lemma_lookup_gen(gens@, *v, i as int);
                }
                Err(Error::UnknownType(*v, self.range))
            },
            GenericKind::Sym(symbol, generics) => {
                let mut vec: Vec<Type> = Vec::new();
                let mut i: usize = 0;
                proof {
                    lemma_extends_refl(m0);
                }
                while i < generics.len()
                    invariant
                        0 <= i <= generics@.len(),
                        self.kind == GenericKind::Sym(*symbol, *generics),
                        all_defined(m0.syms@, *self),
                        m0.wf(),
                        m0 == *old(map),
                        map.wf(),
                        m0.extends(*map),
                        m0.ranks_kept(*map),
                        map.vars@ == m0.vars@,
                        forall|j: int| 0 <= j < gens@.len() ==> m0.ty_ok(#[trigger] gens@[j].1),
                        vec@.len() == i,
                        forall|j: int| 0 <= j < i ==> first_unknown(#[trigger] generics@[j], gens@) is None,
                        forall|j: int| 0 <= j < i ==> map.ty_ok(#[trigger] vec@[j]) && denotes(*map, vec@[j], generics@[j], gens@),
                    decreases generics@.len() - i,
                {
                    proof {
                        vstd::std_specs::vec::axiom_vec_index_decreases(*generics, i as int);
                        assert(self.kind->Sym_1 == *generics);
                        assert(decreases_to!(self.kind => self.kind->Sym_1));
                        assert(decreases_to!(*self => self.kind));
                        assert(all_defined(m0.syms@, generics@[i as int]));
                        assert forall|j: int| 0 <= j < gens@.len() implies map.ty_ok(#[trigger] gens@[j].1) by {
                            assert(m0.ty_ok(gens@[j].1));
                        }
                    }
                    let ghost mb = *map;
                    match generics[i].to_ty(gens, map) {
                        Ok(t) => {
                            proof {
                                let m2 = *map;
                                lemma_extends_trans(m0, mb, m2);
                                lemma_ranks_kept_trans(m0, mb, m2);
                                assert forall|j: int| 0 <= j < i implies m2.ty_ok(#[trigger] vec@[j]) && denotes(m2, vec@[j], generics@[j], gens@) by {
                                    lemma_denotes_ext(mb, m2, vec@[j], generics@[j], gens@);
                                }
                            }
                            vec.push(t);
                        },
                        Err(e) => {
                            proof {
                                lemma_first_unknown_seq(generics@, gens@, i as int);
                                let rest = generics@.subrange(i as int, generics@.len() as int);
                                assert(rest[0] == generics@[i as int]);
                                lemma_extends_trans(m0, mb, *map);
                                lemma_ranks_kept_trans(m0, mb, *map);
                            }
                            return Err(e);
                        },
                    }
                    i = i + 1;
                }
                proof {
                    lemma_first_unknown_seq(generics@, gens@, i as int);
                    assert(generics@.subrange(i as int, generics@.len() as int) =~= Seq::<Generic>::empty());
                    assert(map.sym_defined(*symbol));
                }
                let ghost mb = *map;
                let t = map.get_ty(*symbol, vec.as_slice());
                proof {
                    let m2 = *map;
                    lemma_extends_trans(m0, mb, m2);
                    lemma_ranks_kept_trans(m0, mb, m2);
                    let l = t->Ty_1.0 as int;
                    assert forall|j: int| 0 <= j < m2.gl(l).len() && j < generics@.len() implies {
                        &&& (#[trigger] m2.gl(l)[j]).0 == m2.sym_gens(*symbol)[j]
                        &&& denotes(m2, m2.gl(l)[j].1, generics@[j], gens@)
                    } by {
                        lemma_denotes_ext(mb, m2, vec@[j], generics@[j], gens@);
                    }
                }
                Ok(t)
            },
        }
    }
}




/// The return type of an enum's variant constructors: the enum applied to
/// its own parameters.
pub open spec fn is_enum_ret(g: Generic, range: SourceRange, id: SymbolId, generics: Seq<StringIndex>) -> bool {
    &&& g.range == range
    &&& g.kind is Sym
    &&& g.kind->Sym_0 == id
    &&& g.kind->Sym_1@.len() == generics.len()
    &&& forall|j: int| 0 <= j < generics.len() ==>
        (#[trigger] g.kind->Sym_1@[j]) == (Generic { range, kind: GenericKind::Generic(generics[j]) })
}

/// `s` is the constructor of variant `index` of enum `id`, named `fn_name`,
/// taking one argument named `value` of type `arg`.
pub open spec fn is_variant_fn(s: Symbol, fn_name: StringIndex, generics: Seq<StringIndex>, value: StringIndex,
                              arg: Generic, range: SourceRange, id: SymbolId, index: usize) -> bool {
    &&& s.name == fn_name
    &&& s.generics@ == generics
    &&& s.kind is Function
    &&& s.kind->Function_0.args@.len() == 1
    &&& s.kind->Function_0.args@[0].name == value
    &&& same_generic(arg, s.kind->Function_0.args@[0].symbol)
    &&& !s.kind->Function_0.args@[0].inout
    &&& is_enum_ret(s.kind->Function_0.ret, range, id, generics)
    &&& s.kind->Function_0.kind == FunctionKind::Enum { sym: id, index }
}

/// A copy of a list of names.
fn copy_names(v: &Vec<StringIndex>) -> (r: Vec<StringIndex>)
    ensures
        r@ == v@,
{
    let mut out: Vec<StringIndex> = Vec::new();
    let mut i: usize = 0;
    while i < v.len()
        invariant
            0 <= i <= v@.len(),
            out@ =~= v@.subrange(0, i as int),
        decreases v@.len() - i,
    {
        out.push(v[i]);
        i = i + 1;
    }
    out
}

/// The enum applied to its own parameters, every part at `range`.
fn enum_ret(range: SourceRange, id: SymbolId, generics: &Vec<StringIndex>) -> (r: Generic)
    ensures
        is_enum_ret(r, range, id, generics@),
{
    let mut vec: Vec<Generic> = Vec::new();
    let mut i: usize = 0;
    while i < generics.len()
        invariant
            0 <= i <= generics@.len(),
            vec@.len() == i,
            forall|j: int| 0 <= j < i ==>
                (#[trigger] vec@[j]) == (Generic { range, kind: GenericKind::Generic(generics@[j]) }),
        decreases generics@.len() - i,
    {
        vec.push(Generic::new(range, GenericKind::Generic(generics[i])));
        i = i + 1;
    }
    Generic::new(range, GenericKind::Sym(id, vec))
}

impl SymbolMap {
    /// Fills in the enum reserved under `id` and registers one constructor
    /// function per variant: the `i`th is named `variant_fns[i]` (the enum's
    /// name joined with the variant's), takes the variant's type as its one
    /// argument `value`, returns the enum, and is entered under the variant's
    /// name in the enum's namespace.
    pub fn add_enum(
        &mut self,
        id: SymbolId,
        ns_map: &mut NamespaceMap,
        range: SourceRange,
        name: StringIndex,
        mappings: Vec<(Option<StringIndex>, Generic)>,
        generics: Vec<StringIndex>,
        variant_fns: Vec<StringIndex>,
        value: StringIndex,
    )
        requires
            id.0 < old(self).syms@.len(),
            forall|i: int| 0 <= i < mappings@.len() ==> (#[trigger] mappings@[i]).0 is Some,
            variant_fns@.len() == mappings@.len(),
            old(ns_map).wf(),
            old(self).ns_ok(old(ns_map)),
            old(ns_map).map@.len() + mappings@.len() < u32::MAX,
            old(self).syms@.len() + mappings@.len() < u32::MAX,
        ensures
            final(ns_map).wf(),
            final(self).ns_ok(final(ns_map)),
            old(self).same_types(final(self)),
            final(self).syms@.len() == old(self).syms@.len() + mappings@.len(),
            forall|i: int| 0 <= i < old(self).syms@.len() && i != id.0 ==> #[trigger] final(self).syms@[i] == old(self).syms@[i],
            final(self).syms@[id.0 as int] == (Some(Symbol {
                name,
                generics: final(self).syms@[id.0 as int].0->Some_0.generics,
                kind: SymbolKind::Container(Container { fields: mappings, kind: ContainerKind::Enum }),
            }), old(self).syms@[id.0 as int].1),
            final(self).syms@[id.0 as int].0->Some_0.generics@ == generics@,
            forall|i: int| 0 <= i < mappings@.len() ==> {
                &&& (#[trigger] final(self).syms@[old(self).syms@.len() + i]).0 is Some
                &&& is_variant_fn(final(self).syms@[old(self).syms@.len() + i].0->Some_0, variant_fns@[i], generics@, value,
                                  mappings@[i].1, range, id, i as usize)
                &&& final(self).syms@[old(self).syms@.len() + i].1.0 == old(ns_map).map@.len() + i
            },
            final(ns_map).map@.len() == old(ns_map).map@.len() + mappings@.len(),
            forall|i: int| 0 <= i < mappings@.len() ==> {
                &&& (#[trigger] final(ns_map).map@[old(ns_map).map@.len() + i]).symbols@ == Map::<u32, SymbolEntry>::empty()
                &&& final(ns_map).map@[old(ns_map).map@.len() + i].path == variant_fns@[i]
                &&& final(ns_map).map@[old(ns_map).map@.len() + i].parent is None
            },
            forall|i: int| 0 <= i < old(ns_map).map@.len() && i != old(self).syms@[id.0 as int].1.0 ==>
                #[trigger] final(ns_map).map@[i] == old(ns_map).map@[i],
            final(ns_map).map@[old(self).syms@[id.0 as int].1.0 as int].symbols@ == add_all(
                old(ns_map).map@[old(self).syms@[id.0 as int].1.0 as int].symbols@,
                range,
                mappings@.map_values(|m: (Option<StringIndex>, Generic)| m.0->Some_0),
                old(self).syms@.len(),
            ),
            final(ns_map).map@[old(self).syms@[id.0 as int].1.0 as int].path
                == old(ns_map).map@[old(self).syms@[id.0 as int].1.0 as int].path,
            final(ns_map).map@[old(self).syms@[id.0 as int].1.0 as int].parent
                == old(ns_map).map@[old(self).syms@[id.0 as int].1.0 as int].parent,
    {
        let ghost m0 = *self;
        let ghost n0 = *ns_map;
        let ghost keys = mappings@.map_values(|m: (Option<StringIndex>, Generic)| m.0->Some_0);
        let n = mappings.len();
        let mut names: Vec<StringIndex> = Vec::new();
        let mut tys: Vec<Generic> = Vec::new();
        let mut i: usize = 0;
        while i < n
            invariant
                n == mappings@.len(),
                0 <= i <= n,
                forall|j: int| 0 <= j < n ==> (#[trigger] mappings@[j]).0 is Some,
                names@ =~= keys.subrange(0, i as int),
                keys == mappings@.map_values(|m: (Option<StringIndex>, Generic)| m.0->Some_0),
                tys@.len() == i,
                forall|j: int| 0 <= j < i ==> same_generic(mappings@[j].1, #[trigger] tys@[j]),
            decreases n - i,
        {
            names.push(mappings[i].0.unwrap());
            tys.push(mappings[i].1.duplicate());
            i = i + 1;
        }
        let ghost maps = mappings;
        let sk = SymbolKind::Container(Container::new(mappings, ContainerKind::Enum));
        let sym = Symbol::new(name, copy_names(&generics), sk);
        self.add_sym(id, sym);
        let ns = self.sym_ns(id);
        let ghost m1 = *self;
        let mut i: usize = 0;
        while i < n
            invariant
                n == maps@.len(),
                n == names@.len(),
                n == tys@.len(),
                n == variant_fns@.len(),
                0 <= i <= n,
                names@ == keys,
                forall|j: int| 0 <= j < n ==> same_generic(maps@[j].1, #[trigger] tys@[j]),
                ns == m0.syms@[id.0 as int].1,
                ns.0 < n0.map@.len(),
                ns_map.wf(),
                self.ns_ok(ns_map),
                m0.same_types(self),
                n0.map@.len() + n < u32::MAX,
                m0.syms@.len() + n < u32::MAX,
                self.syms@.len() == m0.syms@.len() + i,
                ns_map.map@.len() == n0.map@.len() + i,
                forall|j: int| 0 <= j < m1.syms@.len() ==> #[trigger] self.syms@[j] == m1.syms@[j],
                forall|j: int| 0 <= j < i ==> {
                    &&& (#[trigger] self.syms@[m0.syms@.len() + j]).0 is Some
                    &&& is_variant_fn(self.syms@[m0.syms@.len() + j].0->Some_0, variant_fns@[j], generics@, value,
                                      maps@[j].1, range, id, j as usize)
                    &&& self.syms@[m0.syms@.len() + j].1.0 == n0.map@.len() + j
                },
                forall|j: int| 0 <= j < i ==> {
                    &&& (#[trigger] ns_map.map@[n0.map@.len() + j]).symbols@ == Map::<u32, SymbolEntry>::empty()
                    &&& ns_map.map@[n0.map@.len() + j].path == variant_fns@[j]
                    &&& ns_map.map@[n0.map@.len() + j].parent is None
                },
                forall|j: int| 0 <= j < n0.map@.len() && j != ns.0 ==> #[trigger] ns_map.map@[j] == n0.map@[j],
                ns_map.map@[ns.0 as int].symbols@ == add_all(n0.map@[ns.0 as int].symbols@, range, keys.subrange(0, i as int), m0.syms@.len()),
                ns_map.map@[ns.0 as int].path == n0.map@[ns.0 as int].path,
                ns_map.map@[ns.0 as int].parent == n0.map@[ns.0 as int].parent,
                m1.syms@.len() == m0.syms@.len(),
            decreases n - i,
        {
            let ret = enum_ret(range, id, &generics);
            let arg = tys[i].duplicate();
            let args = vec![FunctionArgument::new(value, arg, false)];
            let f = FunctionTy::new(args, ret, FunctionKind::Enum { sym: id, index: i });
            let fsym = Symbol::new(variant_fns[i], copy_names(&generics), SymbolKind::Function(f));
            let ghost sb = *self;
            let ghost nb = *ns_map;
            let vid = self.pending(ns_map, variant_fns[i]);
            self.add_sym(vid, fsym);
            proof {
                assert(same_generic(maps@[i as int].1, tys@[i as int]));
                lemma_same_generic_trans(maps@[i as int].1, tys@[i as int], arg);
            }
            let ghost nc = *ns_map;
            let nsr = ns_map.get_ns_mut(ns);
            let _ = nsr.add_sym(range, names[i], crate::syms::sym_map::SymbolId(vid.0), Visibility::Private);
            proof {
                let nm = *ns_map;
                assert forall|j: int| 0 <= j < nm.map@.len() implies match #[trigger] nm.map@[j].parent {
                    Some(p) => p.0 < j,
                    None => true,
                } by {
                    assert(nc.map@[j].parent == nc.map@[j].parent);
                }
                let ks = keys.subrange(0, i + 1);
                assert(ks.drop_last() =~= keys.subrange(0, i as int));
                assert(ks.last() == names@[i as int]);
                assert forall|j: int| 0 <= j < m1.syms@.len() implies #[trigger] self.syms@[j] == m1.syms@[j] by {
                    assert(sb.syms@[j] == m1.syms@[j]);
                }
                assert forall|j: int| 0 <= j < self.syms@.len() implies #[trigger] self.syms@[j].1.0 < nm.map@.len() by {
                    if j < sb.syms@.len() {
                        assert(sb.syms@[j].1.0 < nb.map@.len());
                    }
                }
            }
            i = i + 1;
        }
        proof {
            assert(keys.subrange(0, n as int) =~= keys);
        }
    }
}

proof fn lemma_same_generic_trans(a: Generic, b: Generic, c: Generic)
    requires
        same_generic(a, b),
        same_generic(b, c),
    ensures
        same_generic(a, c),
    decreases a,
{
    if let (GenericKind::Sym(s, v), GenericKind::Sym(t, w), GenericKind::Sym(u, x)) = (a.kind, b.kind, c.kind) {
        assert forall|i: int| 0 <= i < v@.len() implies same_generic(#[trigger] v@[i], x@[i]) by {
            assert(same_generic(v@[i], w@[i]));
            assert(same_generic(w@[i], x@[i]));
            lemma_same_generic_trans(v@[i], w@[i], x@[i]);
        }
    }
}


/// The interned names under which `SymbolMap::new` registers the builtin
/// symbols, their fields and their variants.
#[derive(Clone, Copy, Debug)]
pub struct BuiltinNames {
    pub unit: StringIndex,
    pub int8: StringIndex,
    pub int16: StringIndex,
    pub int32: StringIndex,
    pub int64: StringIndex,
    pub uint8: StringIndex,
    pub uint16: StringIndex,
    pub uint32: StringIndex,
    pub uint64: StringIndex,
    pub float32: StringIndex,
    pub float64: StringIndex,
    pub boolean: StringIndex,
    pub true_variant: StringIndex,
    pub false_variant: StringIndex,
    pub error: StringIndex,
    pub never: StringIndex,
    pub ptr: StringIndex,
    pub count: StringIndex,
    pub value: StringIndex,
    pub t: StringIndex,
    pub a: StringIndex,
    pub range: StringIndex,
    pub low: StringIndex,
    pub high: StringIndex,
    pub option: StringIndex,
    pub some: StringIndex,
    pub none: StringIndex,
    pub result: StringIndex,
    pub ok: StringIndex,
    pub string: StringIndex,
    /// The names of the variant constructors: each enum's name joined with
    /// the variant's.
    pub bool_true: StringIndex,
    pub bool_false: StringIndex,
    pub option_some: StringIndex,
    pub option_none: StringIndex,
    pub result_ok: StringIndex,
    pub result_error: StringIndex,
}

/// `g` is the symbol `id` applied to no arguments, at the empty range.
pub open spec fn is_bare_sym(g: Generic, id: u32) -> bool {
    &&& g.range == (SourceRange { start: 0, end: 0 })
    &&& g.kind is Sym
    &&& g.kind->Sym_0 == SymbolId(id)
    &&& g.kind->Sym_1@.len() == 0
}

/// `g` is the parameter `name`, at the empty range.
pub open spec fn is_param(g: Generic, name: StringIndex) -> bool {
    g == (Generic { range: SourceRange { start: 0, end: 0 }, kind: GenericKind::Generic(name) })
}

/// A struct symbol named `name` with no fields and no parameters.
pub open spec fn is_plain_struct(e: (Option<Symbol>, NamespaceId), name: StringIndex) -> bool {
    &&& e.0 is Some
    &&& e.0->Some_0.name == name
    &&& e.0->Some_0.generics@.len() == 0
    &&& e.0->Some_0.kind is Container
    &&& e.0->Some_0.kind->Container_0.kind == ContainerKind::Struct
    &&& e.0->Some_0.kind->Container_0.fields@.len() == 0
}

/// A container symbol named `name` with parameters `gens` and exactly two
/// fields, named `f0` and `f1`.
pub open spec fn is_pair_container(e: (Option<Symbol>, NamespaceId), name: StringIndex, kind: ContainerKind,
                                   gens: Seq<StringIndex>, f0: StringIndex, f1: StringIndex) -> bool {
    &&& e.0 is Some
    &&& e.0->Some_0.name == name
    &&& e.0->Some_0.generics@ == gens
    &&& e.0->Some_0.kind is Container
    &&& e.0->Some_0.kind->Container_0.kind == kind
    &&& e.0->Some_0.kind->Container_0.fields@.len() == 2
    &&& e.0->Some_0.kind->Container_0.fields@[0].0 == Some(f0)
    &&& e.0->Some_0.kind->Container_0.fields@[1].0 == Some(f1)
}

/// The `k`th field type of the container symbol in `e`.
pub open spec fn field_ty(e: (Option<Symbol>, NamespaceId), k: int) -> Generic {
    e.0->Some_0.kind->Container_0.fields@[k].1
}

impl SymbolMap {
    /// Registers a struct with no fields and no parameters under `name`.
    fn add_plain(&mut self, ns_map: &mut NamespaceMap, name: StringIndex) -> (r: SymbolId)
        requires
            old(ns_map).wf(),
            old(ns_map).map@.len() < u32::MAX,
            old(self).syms@.len() < u32::MAX,
            old(self).ns_ok(old(ns_map)),
        ensures
            final(ns_map).wf(),
            final(self).ns_ok(final(ns_map)),
            old(self).same_types(final(self)),
            r.0 == old(self).syms@.len(),
            final(self).syms@.len() == old(self).syms@.len() + 1,
            forall|i: int| 0 <= i < old(self).syms@.len() ==> #[trigger] final(self).syms@[i] == old(self).syms@[i],
            is_plain_struct(final(self).syms@[r.0 as int], name),
            final(self).syms@[r.0 as int].1.0 == old(ns_map).map@.len(),
            final(ns_map).map@ == old(ns_map).map@.push(Namespace { symbols: final(ns_map).map@.last().symbols, path: name, parent: None }),
            final(ns_map).map@.last().symbols@ == Map::<u32, SymbolEntry>::empty(),
    {
        let pending = self.pending(ns_map, name);
        let kind = SymbolKind::Container(Container::new(Vec::new(), ContainerKind::Struct));
        self.add_sym(pending, Symbol::new(name, Vec::new(), kind));
        proof {
            assert(ns_map.map@ =~= old(ns_map).map@.push(Namespace { symbols: ns_map.map@.last().symbols, path: name, parent: None }));
        }
        pending
    }
}

fn bare_sym(id: u32) -> (r: Generic)
    ensures
        is_bare_sym(r, id),
{
    Generic::new(SourceRange::zero(), GenericKind::Sym(SymbolId(id), Vec::new()))
}

fn param(name: StringIndex) -> (r: Generic)
    ensures
        is_param(r, name),
{
    Generic::new(SourceRange::zero(), GenericKind::Generic(name))
}


/// The first `upto` symbols of `m` are defined and each has the namespace
/// numbered `base` plus its own number, named after it and without a
/// parent; apart from those of the enums, these namespaces are empty.
pub open spec fn ns_paired(m: SymbolMap, ns: NamespaceMap, base: nat, upto: nat) -> bool {
    &&& m.syms@.len() == upto
    &&& ns.map@.len() == base + upto
    &&& forall|k: int| 0 <= k < upto ==> {
        &&& (#[trigger] m.syms@[k]).0 is Some
        &&& m.syms@[k].1.0 == base + k
        &&& ns.map@[base + k].path == m.syms@[k].0->Some_0.name
        &&& ns.map@[base + k].parent is None
        &&& (k != SymbolId::BOOL && k != SymbolId::OPTION && k != SymbolId::RESULT ==>
            ns.map@[base + k].symbols@ == Map::<u32, SymbolEntry>::empty())
    }
}

/// The entries that an enum's namespace gets for its two variants.
pub open spec fn pair_entries(v0: StringIndex, v1: StringIndex, first: nat) -> Map<u32, SymbolEntry> {
    add_all(Map::<u32, SymbolEntry>::empty(), SourceRange { start: 0, end: 0 }, seq![v0, v1], first)
}

impl SymbolMap {
    /// The symbol table with the builtin types registered under the ids of
    /// `SymbolId`, each with a namespace of its own, and the empty generic
    /// list; the enums `bool`, `Option` and `Result` come with one
    /// constructor function per variant, entered in the enum's namespace.
    #[verifier::rlimit(40)]
    pub fn new(ns_map: &mut NamespaceMap, names: &BuiltinNames) -> (r: SymbolMap)
        requires
            old(ns_map).wf(),
            old(ns_map).map@.len() + 25 < u32::MAX,
        ensures
            r.wf(),
            final(ns_map).wf(),
            r.ns_ok(final(ns_map)),
            r.tys@.len() == 1,
            r.vars@.len() == 0,
            r.syms@.len() == 25,
            final(ns_map).map@.len() == old(ns_map).map@.len() + 25,
            forall|i: int| 0 <= i < old(ns_map).map@.len() ==> #[trigger] final(ns_map).map@[i] == old(ns_map).map@[i],
            forall|k: int| 0 <= k < 25 ==> {
                &&& (#[trigger] r.syms@[k]).0 is Some
                &&& r.syms@[k].1.0 == old(ns_map).map@.len() + k
                &&& final(ns_map).map@[old(ns_map).map@.len() + k].path == r.syms@[k].0->Some_0.name
                &&& final(ns_map).map@[old(ns_map).map@.len() + k].parent is None
                &&& (k != SymbolId::BOOL && k != SymbolId::OPTION && k != SymbolId::RESULT ==>
                    final(ns_map).map@[old(ns_map).map@.len() + k].symbols@ == Map::<u32, SymbolEntry>::empty())
            },
            is_plain_struct(r.syms@[SymbolId::UNIT as int], names.unit),
            is_plain_struct(r.syms@[SymbolId::I8 as int], names.int8),
            is_plain_struct(r.syms@[SymbolId::I16 as int], names.int16),
            is_plain_struct(r.syms@[SymbolId::I32 as int], names.int32),
            is_plain_struct(r.syms@[SymbolId::I64 as int], names.int64),
            is_plain_struct(r.syms@[SymbolId::U8 as int], names.uint8),
            is_plain_struct(r.syms@[SymbolId::U16 as int], names.uint16),
            is_plain_struct(r.syms@[SymbolId::U32 as int], names.uint32),
            is_plain_struct(r.syms@[SymbolId::U64 as int], names.uint64),
            is_plain_struct(r.syms@[SymbolId::F32 as int], names.float32),
            is_plain_struct(r.syms@[SymbolId::F64 as int], names.float64),
            is_plain_struct(r.syms@[SymbolId::ERROR as int], names.error),
            is_plain_struct(r.syms@[SymbolId::NEVER as int], names.never),
            is_pair_container(r.syms@[SymbolId::BOOL as int], names.boolean, ContainerKind::Enum, seq![],
                              names.true_variant, names.false_variant),
            is_bare_sym(field_ty(r.syms@[SymbolId::BOOL as int], 0), SymbolId::UNIT),
            is_bare_sym(field_ty(r.syms@[SymbolId::BOOL as int], 1), SymbolId::UNIT),
            is_variant_fn(r.syms@[12].0->Some_0, names.bool_true, seq![], names.value,
                          field_ty(r.syms@[SymbolId::BOOL as int], 0), SourceRange { start: 0, end: 0 }, SymbolId(SymbolId::BOOL), 0),
            is_variant_fn(r.syms@[13].0->Some_0, names.bool_false, seq![], names.value,
                          field_ty(r.syms@[SymbolId::BOOL as int], 1), SourceRange { start: 0, end: 0 }, SymbolId(SymbolId::BOOL), 1),
            final(ns_map).map@[old(ns_map).map@.len() + SymbolId::BOOL].symbols@
                == pair_entries(names.true_variant, names.false_variant, 12),
            is_pair_container(r.syms@[SymbolId::PTR as int], names.ptr, ContainerKind::Struct, seq![names.t],
                              names.count, names.value),
            is_bare_sym(field_ty(r.syms@[SymbolId::PTR as int], 0), SymbolId::U64),
            is_param(field_ty(r.syms@[SymbolId::PTR as int], 1), names.t),
            is_pair_container(r.syms@[SymbolId::RANGE as int], names.range, ContainerKind::Struct, seq![],
                              names.low, names.high),
            is_bare_sym(field_ty(r.syms@[SymbolId::RANGE as int], 0), SymbolId::I64),
            is_param(field_ty(r.syms@[SymbolId::RANGE as int], 1), names.int64),
            is_pair_container(r.syms@[SymbolId::OPTION as int], names.option, ContainerKind::Enum, seq![names.t],
                              names.some, names.none),
            is_param(field_ty(r.syms@[SymbolId::OPTION as int], 0), names.t),
            is_bare_sym(field_ty(r.syms@[SymbolId::OPTION as int], 1), SymbolId::UNIT),
            is_variant_fn(r.syms@[19].0->Some_0, names.option_some, seq![names.t], names.value,
                          field_ty(r.syms@[SymbolId::OPTION as int], 0), SourceRange { start: 0, end: 0 }, SymbolId(SymbolId::OPTION), 0),
            is_variant_fn(r.syms@[20].0->Some_0, names.option_none, seq![names.t], names.value,
                          field_ty(r.syms@[SymbolId::OPTION as int], 1), SourceRange { start: 0, end: 0 }, SymbolId(SymbolId::OPTION), 1),
            final(ns_map).map@[old(ns_map).map@.len() + SymbolId::OPTION].symbols@
                == pair_entries(names.some, names.none, 19),
            is_pair_container(r.syms@[SymbolId::RESULT as int], names.result, ContainerKind::Enum, seq![names.t, names.a],
                              names.ok, names.error),
            is_param(field_ty(r.syms@[SymbolId::RESULT as int], 0), names.t),
            is_param(field_ty(r.syms@[SymbolId::RESULT as int], 1), names.a),
            is_variant_fn(r.syms@[22].0->Some_0, names.result_ok, seq![names.t, names.a], names.value,
                          field_ty(r.syms@[SymbolId::RESULT as int], 0), SourceRange { start: 0, end: 0 }, SymbolId(SymbolId::RESULT), 0),
            is_variant_fn(r.syms@[23].0->Some_0, names.result_error, seq![names.t, names.a], names.value,
                          field_ty(r.syms@[SymbolId::RESULT as int], 1), SourceRange { start: 0, end: 0 }, SymbolId(SymbolId::RESULT), 1),
            final(ns_map).map@[old(ns_map).map@.len() + SymbolId::RESULT].symbols@
                == pair_entries(names.ok, names.error, 22),
            is_pair_container(r.syms@[SymbolId::STR as int], names.string, ContainerKind::Struct, seq![],
                              names.ptr, names.count),
            field_ty(r.syms@[SymbolId::STR as int], 0).kind is Sym,
            field_ty(r.syms@[SymbolId::STR as int], 0).kind->Sym_0 == SymbolId(SymbolId::PTR),
            field_ty(r.syms@[SymbolId::STR as int], 0).kind->Sym_1@.len() == 1,
            is_bare_sym(field_ty(r.syms@[SymbolId::STR as int], 0).kind->Sym_1@[0], SymbolId::U8),
            is_bare_sym(field_ty(r.syms@[SymbolId::STR as int], 1), SymbolId::U32),
    {
        let ghost base = ns_map.map@.len();
        let mut tys: Vec<Vec<(StringIndex, Type)>> = Vec::new();
        tys.push(Vec::new());
        let mut slf = SymbolMap {
            syms: Vec::new(),
            tys,
            vars: Vec::new(),
            rank_v: Ghost(Seq::empty()),
            rank_g: Ghost(Seq::<nat>::empty().push(0nat)),
        };
        proof {
            assert(slf.gl(0) =~= Seq::<(StringIndex, Type)>::empty());
        }
        proof { assert(ns_paired(slf, *ns_map, base, 0)); }
        slf.add_plain(ns_map, names.unit);
        proof { assert(ns_paired(slf, *ns_map, base, slf.syms@.len())); }
        slf.add_plain(ns_map, names.int8);
        proof { assert(ns_paired(slf, *ns_map, base, slf.syms@.len())); }
        slf.add_plain(ns_map, names.int16);
        proof { assert(ns_paired(slf, *ns_map, base, slf.syms@.len())); }
        slf.add_plain(ns_map, names.int32);
        proof { assert(ns_paired(slf, *ns_map, base, slf.syms@.len())); }
        slf.add_plain(ns_map, names.int64);
        proof { assert(ns_paired(slf, *ns_map, base, slf.syms@.len())); }
        slf.add_plain(ns_map, names.uint8);
        proof { assert(ns_paired(slf, *ns_map, base, slf.syms@.len())); }
        slf.add_plain(ns_map, names.uint16);
        proof { assert(ns_paired(slf, *ns_map, base, slf.syms@.len())); }
        slf.add_plain(ns_map, names.uint32);
        proof { assert(ns_paired(slf, *ns_map, base, slf.syms@.len())); }
        slf.add_plain(ns_map, names.uint64);
        proof { assert(ns_paired(slf, *ns_map, base, slf.syms@.len())); }
        slf.add_plain(ns_map, names.float32);
        proof { assert(ns_paired(slf, *ns_map, base, slf.syms@.len())); }
        slf.add_plain(ns_map, names.float64);
        proof { assert(ns_paired(slf, *ns_map, base, slf.syms@.len())); }
        // bool
        let pending = slf.pending(ns_map, names.boolean);
        let fields = vec![(Some(names.true_variant), bare_sym(SymbolId::UNIT)), (Some(names.false_variant), bare_sym(SymbolId::UNIT))];
        proof {
            assert(fields@.map_values(|m: (Option<StringIndex>, Generic)| m.0->Some_0)
                =~= seq![names.true_variant, names.false_variant]);
        }
        let no_gens: Vec<StringIndex> = Vec::new();
        proof {
            assert(no_gens@ =~= seq![]);
        }
        let ghost sb = slf;
        let ghost nb = *ns_map;
        slf.add_enum(pending, ns_map, SourceRange::zero(), names.boolean, fields, no_gens,
                     vec![names.bool_true, names.bool_false], names.value);
        proof {
            assert(slf.syms@[sb.syms@.len() + 0int].0 is Some);
            assert(slf.syms@[sb.syms@.len() + 1int].0 is Some);
            assert(ns_map.map@[nb.map@.len() + 0int].parent is None);
            assert(ns_map.map@[nb.map@.len() + 1int].parent is None);
        }
        proof {
            assert(ns_paired(slf, *ns_map, base, slf.syms@.len()));
        }
        proof {
            assert(ns_map.map@[base + SymbolId::BOOL].symbols@
                == pair_entries(names.true_variant, names.false_variant, 12));
        }
        slf.add_plain(ns_map, names.error);
        proof { assert(ns_paired(slf, *ns_map, base, slf.syms@.len())); }
        slf.add_plain(ns_map, names.never);
        proof { assert(ns_paired(slf, *ns_map, base, slf.syms@.len())); }
        // ptr
        let pending = slf.pending(ns_map, names.ptr);
        let fields = vec![(Some(names.count), bare_sym(SymbolId::U64)), (Some(names.value), param(names.t))];
        let ptr_gens = vec![names.t];
        proof {
            assert(fields@.len() == 2 && fields@[0].0 == Some(names.count) && fields@[1].0 == Some(names.value));
            assert(ptr_gens@ =~= seq![names.t]);
        }
        let kind = SymbolKind::Container(Container::new(fields, ContainerKind::Struct));
        slf.add_sym(pending, Symbol::new(names.ptr, ptr_gens, kind));
        proof {
            assert(is_pair_container(slf.syms@[SymbolId::PTR as int], names.ptr, ContainerKind::Struct, seq![names.t],
                              names.count, names.value));
        }
        proof { assert(ns_paired(slf, *ns_map, base, slf.syms@.len())); }
        // range
        let pending = slf.pending(ns_map, names.range);
        let fields = vec![(Some(names.low), bare_sym(SymbolId::I64)), (Some(names.high), param(names.int64))];
        let kind = SymbolKind::Container(Container::new(fields, ContainerKind::Struct));
        slf.add_sym(pending, Symbol::new(names.range, Vec::new(), kind));
        proof {
            assert(is_pair_container(slf.syms@[SymbolId::RANGE as int], names.range, ContainerKind::Struct, seq![],
                              names.low, names.high));
        }
        proof { assert(ns_paired(slf, *ns_map, base, slf.syms@.len())); }
        // option
        let pending = slf.pending(ns_map, names.option);
        let fields = vec![(Some(names.some), param(names.t)), (Some(names.none), bare_sym(SymbolId::UNIT))];
        proof {
            assert(fields@.map_values(|m: (Option<StringIndex>, Generic)| m.0->Some_0)
                =~= seq![names.some, names.none]);
        }
        let ghost sb = slf;
        let ghost nb = *ns_map;
        slf.add_enum(pending, ns_map, SourceRange::zero(), names.option, fields, vec![names.t],
                     vec![names.option_some, names.option_none], names.value);
        proof {
            assert(slf.syms@[sb.syms@.len() + 0int].0 is Some);
            assert(slf.syms@[sb.syms@.len() + 1int].0 is Some);
            assert(ns_map.map@[nb.map@.len() + 0int].parent is None);
            assert(ns_map.map@[nb.map@.len() + 1int].parent is None);
        }
        proof { assert(ns_paired(slf, *ns_map, base, slf.syms@.len())); }
        // result
        let pending = slf.pending(ns_map, names.result);
        let fields = vec![(Some(names.ok), param(names.t)), (Some(names.error), param(names.a))];
        proof {
            assert(fields@.map_values(|m: (Option<StringIndex>, Generic)| m.0->Some_0)
                =~= seq![names.ok, names.error]);
        }
        let ghost sb = slf;
        let ghost nb = *ns_map;
        slf.add_enum(pending, ns_map, SourceRange::zero(), names.result, fields, vec![names.t, names.a],
                     vec![names.result_ok, names.result_error], names.value);
        proof {
            assert(slf.syms@[sb.syms@.len() + 0int].0 is Some);
            assert(slf.syms@[sb.syms@.len() + 1int].0 is Some);
            assert(ns_map.map@[nb.map@.len() + 0int].parent is None);
            assert(ns_map.map@[nb.map@.len() + 1int].parent is None);
        }
        proof { assert(ns_paired(slf, *ns_map, base, slf.syms@.len())); }
        // str
        let pending = slf.pending(ns_map, names.string);
        let ptr = Generic::new(SourceRange::zero(), GenericKind::Sym(SymbolId(SymbolId::PTR), vec![bare_sym(SymbolId::U8)]));
        let fields = vec![(Some(names.ptr), ptr), (Some(names.count), bare_sym(SymbolId::U32))];
        let kind = SymbolKind::Container(Container::new(fields, ContainerKind::Struct));
        slf.add_sym(pending, Symbol::new(names.string, Vec::new(), kind));
        proof { assert(ns_paired(slf, *ns_map, base, slf.syms@.len())); }
        slf
    }
}

} // verus!
