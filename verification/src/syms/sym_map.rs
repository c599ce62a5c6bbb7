use std::collections::HashMap;
use vstd::prelude::*;

use crate::errors::Error;
use crate::ids::{ErrorId, NamespaceId, NodeId, SourceRange, StringIndex};
use crate::namespace::{Namespace, NamespaceMap, SymbolEntry, Visibility, add_all};
use crate::syms::containers::{Container, ContainerKind};
use crate::syms::func::{FunctionArgument, FunctionKind, FunctionTy};
use crate::ids::DeclId;
use crate::syms::ty::Sym;
use crate::syms::{Symbol, SymbolKind, TraitImplementation, TraitSynthesis};

verus! {

/// Identifier of a symbol in a `SymbolMap`.
#[derive(Clone, Copy, Debug, PartialEq, Eq, Structural)]
pub struct SymbolId(pub u32);

/// Identifier of a list of generic arguments in a `SymbolMap`.
#[derive(Clone, Copy, Debug, PartialEq, Eq, Structural)]
pub struct GenListId(pub u32);

/// Identifier of an inference variable in a `SymbolMap`.
#[derive(Clone, Copy, Debug, PartialEq, Eq, Structural)]
pub struct VarId(pub u32);

/// Identifier of a closure in a `SymbolMap`.
#[derive(Clone, Copy, Debug, PartialEq, Eq, Structural)]
pub struct ClosureId(pub u32);

impl GenListId {
    /// The empty generic list, always the first one.
    pub const EMPTY: u32 = 0;
}

/// The raw ids of the builtin symbols, in the order in which `SymbolMap::new` registers them.
/// Each enum registers one function symbol per variant right after itself.
impl SymbolId {
    pub const UNIT: u32 = 0;
    pub const I64: u32 = 1;
    pub const F64: u32 = 2;
    pub const BOOL: u32 = 3;
    pub const ERR: u32 = 6;
    pub const NEVER: u32 = 7;
    pub const PTR: u32 = 8;
    pub const RANGE: u32 = 9;
    pub const OPTION: u32 = 10;
    pub const RESULT: u32 = 13;
    pub const STR: u32 = 16;
    pub const LIST: u32 = 17;
    pub const BUILTIN_TYPE_ID: u32 = 18;
    pub const BUILTIN_SIZE_OF: u32 = 19;
    pub const EQ_TRAIT: u32 = 20;
    pub const RC: u32 = 21;
    pub const BUILTIN_RC: u32 = 22;
    pub const RC_GET: u32 = 23;
    pub const RC_SET: u32 = 24;
    pub const PTR_ALLOC: u32 = 25;
    pub const PTR_FREE: u32 = 26;
    pub const PTR_READ: u32 = 27;
    pub const PTR_WRITE: u32 = 28;
    pub const PTR_WRITE_UNINIT: u32 = 29;
    pub const PTR_NULL: u32 = 30;
    pub const PTR_OFFSET: u32 = 31;
    pub const PTR_CAST: u32 = 32;
    pub const DESTROY_TRAIT: u32 = 33;
    pub const PTR_DROP: u32 = 34;
    pub const LIST_CONCAT: u32 = 35;
    pub const LIST_SLICE_PAIR: u32 = 36;
    pub const LIST_SLICE: u32 = 37;
    pub const LIST_LEN: u32 = 38;
    pub const BYTE: u32 = 39;
}

/// What an inference variable stands for so far.
#[derive(Clone, Copy, Debug, PartialEq, Eq, Structural)]
pub enum VarSub {
    Concrete(Sym),
    Integer,
    Float,
    Unresolved,
}


/// An inference variable: its name if it stands for a named binding, what
/// it stands for so far, and where it was introduced.
#[derive(Clone, Copy, Debug, PartialEq, Eq, Structural)]
pub struct Var {
    pub name: Option<StringIndex>,
    pub sub: VarSub,
    pub node: NodeId,
    pub range: SourceRange,
}

/// The variables a closure captures, each (name, type) pair once.
#[derive(Debug)]
pub struct Closure {
    pub captured_variables: Vec<(StringIndex, Sym)>,
}

/// A generic parameter and the traits it must implement.
#[derive(Debug)]
pub struct BoundedGeneric {
    pub name: StringIndex,
    pub bounds: Vec<SymbolId>,
}

/// A type as written in a declaration.
#[derive(Debug)]
pub struct Generic {
    pub range: SourceRange,
    pub kind: GenericKind,
    pub err: Option<ErrorId>,
}

#[derive(Debug)]
pub enum GenericKind {
    Generic(BoundedGeneric),
    Sym(SymbolId, Vec<Generic>),
}

/// The symbols, generic lists, inference variables and closures of a
/// program. Each symbol is either defined or still pending (with the
/// number of generics it was announced with), and has a namespace and the
/// traits it implements explicitly.
pub struct SymbolMap {
    pub syms: Vec<(Result<Symbol, usize>, NamespaceId, HashMap<u32, (NamespaceId, Generic, Vec<BoundedGeneric>)>)>,
    pub gens: Vec<Vec<(BoundedGeneric, Sym)>>,
    pub vars: Vec<Var>,
    pub closures: Vec<Closure>,
}

impl BoundedGeneric {
    pub fn new(name: StringIndex, bounds: Vec<SymbolId>) -> (r: Self)
        ensures
            r.name == name,
            r.bounds == bounds,
    {
        BoundedGeneric { name, bounds }
    }
}

impl Generic {
    pub fn new(range: SourceRange, kind: GenericKind, err: Option<ErrorId>) -> (r: Self)
        ensures
            r.range == range,
            r.kind == kind,
            r.err == err,
    {
        Generic { range, kind, err }
    }

    /// The symbol this generic names directly, if it is not a parameter.
    pub fn sym(&self) -> (r: Option<SymbolId>)
        ensures
            r == match self.kind {
                GenericKind::Generic(_) => None,
                GenericKind::Sym(s, _) => Some(s),
            },
    {
        match self.kind {
            GenericKind::Generic(_) => None,
            GenericKind::Sym(v, _) => Some(v),
        }
    }
}

/// `new` is the function symbol `old` with its code marked as generated.
pub open spec fn marked_cached(old: Symbol, new: Symbol) -> bool {
    &&& old.kind is Function
    &&& new.kind is Function
    &&& new.name == old.name
    &&& new.generics == old.generics
    &&& new.kind->Function_0.cached
    &&& new.kind->Function_0.args == old.kind->Function_0.args
    &&& new.kind->Function_0.ret == old.kind->Function_0.ret
    &&& new.kind->Function_0.kind == old.kind->Function_0.kind
    &&& new.kind->Function_0.decl == old.kind->Function_0.decl
}

impl SymbolMap {
    /// One step along a variable's binding: what the variable stands for
    /// if it stands for a type, else the type itself.
    pub open spec fn shallow(&self, t: Sym) -> Sym {
        match t {
            Sym::Ty(..) => t,
            Sym::Var(v) => match self.vars@[v.0 as int].sub {
                VarSub::Concrete(s) => s,
                _ => t,
            },
        }
    }

    /// Every variable bound to a variable is bound to one of this map.
    pub open spec fn wf(&self) -> bool {
        forall|v: int| 0 <= v < self.vars@.len() ==> match #[trigger] self.vars@[v].sub {
            VarSub::Concrete(Sym::Var(w)) => w.0 < self.vars@.len(),
            _ => true,
        }
    }

    /// Reserves a symbol id, announced with `gen_count` generics, together
    /// with a fresh namespace named `path` under `parent`.
    pub fn pending(&mut self, ns_map: &mut NamespaceMap, parent: Option<NamespaceId>, path: StringIndex, gen_count: usize) -> (r: SymbolId)
        requires
            old(ns_map).wf(),
            old(ns_map).map@.len() < u32::MAX,
            old(self).syms@.len() < u32::MAX,
            parent matches Some(p) ==> old(ns_map).contains(p),
        ensures
            final(ns_map).wf(),
            r.0 == old(self).syms@.len(),
            final(self).syms@.len() == old(self).syms@.len() + 1,
            forall|i: int| 0 <= i < old(self).syms@.len() ==> #[trigger] final(self).syms@[i] == old(self).syms@[i],
            final(self).syms@.last().0 == Err::<Symbol, usize>(gen_count),
            final(self).syms@.last().1.0 == old(ns_map).map@.len(),
            final(self).syms@.last().2@ == Map::<u32, (NamespaceId, Generic, Vec<BoundedGeneric>)>::empty(),
            final(self).gens == old(self).gens,
            final(self).vars == old(self).vars,
            final(self).closures == old(self).closures,
            final(ns_map).map@.len() == old(ns_map).map@.len() + 1,
            forall|i: int| 0 <= i < old(ns_map).map@.len() ==> #[trigger] final(ns_map).map@[i] == old(ns_map).map@[i],
            final(ns_map).map@.last().symbols@ == Map::<u32, crate::namespace::SymbolEntry>::empty(),
            final(ns_map).map@.last().path == path,
            final(ns_map).map@.last().parent == parent,
    {
        let ns = ns_map.push(Namespace::new(path), parent);
        let id = SymbolId(self.syms.len() as u32);
        self.syms.push((Err(gen_count), ns, HashMap::new()));
        id
    }

    /// Defines the symbol reserved under `id`; it must have as many
    /// generics as it was announced with.
    pub fn add_sym(&mut self, id: SymbolId, sym: Symbol)
        requires
            id.0 < old(self).syms@.len(),
            old(self).syms@[id.0 as int].0 == Err::<Symbol, usize>(sym.generics@.len() as usize),
        ensures
            final(self).syms@.len() == old(self).syms@.len(),
            forall|i: int| 0 <= i < old(self).syms@.len() && i != id.0 ==> #[trigger] final(self).syms@[i] == old(self).syms@[i],
            final(self).syms@[id.0 as int].0 == Ok::<Symbol, usize>(sym),
            final(self).syms@[id.0 as int].1 == old(self).syms@[id.0 as int].1,
            final(self).syms@[id.0 as int].2@ == old(self).syms@[id.0 as int].2@,
            final(self).gens == old(self).gens,
            final(self).vars == old(self).vars,
            final(self).closures == old(self).closures,
    {
        let entry = self.syms.remove(id.0 as usize);
        let (_, ns, traits) = entry;
        self.syms.insert(id.0 as usize, (Ok(sym), ns, traits));
        proof {
            assert forall|i: int| 0 <= i < old(self).syms@.len() && i != id.0 implies #[trigger] self.syms@[i] == old(self).syms@[i] by {}
        }
    }

    /// The defined symbol `id`.
    pub fn sym(&self, id: SymbolId) -> (r: &Symbol)
        requires
            id.0 < self.syms@.len(),
            self.syms@[id.0 as int].0 is Ok,
        ensures
            Ok::<Symbol, usize>(*r) == self.syms@[id.0 as int].0,
    {
        self.syms[id.0 as usize].0.as_ref().unwrap()
    }

    /// The namespace of the symbol `id`, which must be a namespace symbol.
    pub fn as_ns(&self, id: SymbolId) -> (r: NamespaceId)
        requires
            id.0 < self.syms@.len(),
            self.syms@[id.0 as int].0 matches Ok(s) && s.kind is Namespace,
        ensures
            r == self.syms@[id.0 as int].1,
    {
        self.sym_ns(id)
    }

    /// How many generics the symbol has, or was announced with while pending.
    pub fn sym_gens_size(&mut self, id: SymbolId) -> (r: usize)
        requires
            id.0 < old(self).syms@.len(),
        ensures
            *final(self) == *old(self),
            r == match old(self).syms@[id.0 as int].0 {
                Ok(s) => s.generics@.len() as usize,
                Err(n) => n,
            },
    {
        match &self.syms[id.0 as usize].0 {
            Ok(v) => v.generics.len(),
            Err(v) => *v,
        }
    }

    /// The namespace of the symbol `id`.
    pub fn sym_ns(&self, id: SymbolId) -> (r: NamespaceId)
        requires
            id.0 < self.syms@.len(),
        ensures
            r == self.syms@[id.0 as int].1,
    {
        self.syms[id.0 as usize].1
    }

    /// A new variable that stands for nothing yet.
    pub fn new_var(&mut self, node: NodeId, name: Option<StringIndex>, range: SourceRange) -> (r: Sym)
        requires
            old(self).wf(),
            old(self).vars@.len() < u32::MAX,
        ensures
            final(self).wf(),
            r == Sym::Var(VarId(old(self).vars@.len() as u32)),
            final(self).vars@ == old(self).vars@.push(Var { name, sub: VarSub::Unresolved, node, range }),
            final(self).syms == old(self).syms,
            final(self).gens == old(self).gens,
            final(self).closures == old(self).closures,
    {
        self.new_var_ex(node, name, range, VarSub::Unresolved)
    }

    /// A new variable that stands for `sub` so far.
    pub fn new_var_ex(&mut self, node: NodeId, name: Option<StringIndex>, range: SourceRange, sub: VarSub) -> (r: Sym)
        requires
            old(self).wf(),
            old(self).vars@.len() < u32::MAX,
            sub matches VarSub::Concrete(Sym::Var(w)) ==> w.0 < old(self).vars@.len(),
        ensures
            final(self).wf(),
            r == Sym::Var(VarId(old(self).vars@.len() as u32)),
            final(self).vars@ == old(self).vars@.push(Var { name, sub, node, range }),
            final(self).syms == old(self).syms,
            final(self).gens == old(self).gens,
            final(self).closures == old(self).closures,
    {
        let id = VarId(self.vars.len() as u32);
        self.vars.push(Var { sub, node, name, range });
        proof {
            assert forall|v: int| 0 <= v < self.vars@.len() implies match #[trigger] self.vars@[v].sub {
                VarSub::Concrete(Sym::Var(w)) => w.0 < self.vars@.len(),
                _ => true,
            } by {
                if v < old(self).vars@.len() {
                    assert(self.vars@[v] == old(self).vars@[v]);
                    assert(old(self).vars@[v].sub == old(self).vars@[v].sub);
                }
            }
        }
        Sym::Var(id)
    }

    /// The generic list `g`.
    pub fn get_gens(&self, g: GenListId) -> (r: &Vec<(BoundedGeneric, Sym)>)
        requires
            g.0 < self.gens@.len(),
        ensures
            *r == self.gens@[g.0 as int],
    {
        &self.gens[g.0 as usize]
    }

    /// Registers a list of generic arguments; the empty list is always
    /// `GenListId::EMPTY`.
    pub fn add_gens(&mut self, generics: Vec<(BoundedGeneric, Sym)>) -> (r: GenListId)
        requires
            old(self).gens@.len() < u32::MAX,
        ensures
            generics@.len() == 0 ==> r.0 == GenListId::EMPTY && *final(self) == *old(self),
            generics@.len() > 0 ==> {
                &&& r.0 == old(self).gens@.len()
                &&& final(self).gens@ == old(self).gens@.push(generics)
                &&& final(self).syms == old(self).syms
                &&& final(self).vars == old(self).vars
                &&& final(self).closures == old(self).closures
            },
    {
        if generics.len() == 0 {
            return GenListId(GenListId::EMPTY);
        }
        let id = GenListId(self.gens.len() as u32);
        self.gens.push(generics);
        id
    }

    /// Marks the function `id` as having had its code generated.
    pub fn cached_fn(&mut self, id: SymbolId)
        requires
            id.0 < old(self).syms@.len(),
            old(self).syms@[id.0 as int].0 matches Ok(s) && s.kind is Function,
        ensures
            final(self).syms@.len() == old(self).syms@.len(),
            forall|i: int| 0 <= i < old(self).syms@.len() && i != id.0 ==> #[trigger] final(self).syms@[i] == old(self).syms@[i],
            final(self).syms@[id.0 as int].1 == old(self).syms@[id.0 as int].1,
            final(self).syms@[id.0 as int].0 is Ok,
            marked_cached(old(self).syms@[id.0 as int].0->Ok_0, final(self).syms@[id.0 as int].0->Ok_0),
            final(self).gens == old(self).gens,
            final(self).vars == old(self).vars,
            final(self).closures == old(self).closures,
    {
        let entry = self.syms.remove(id.0 as usize);
        let (res, ns, traits) = entry;
        let res = match res {
            Ok(sym) => {
                let Symbol { name, generics, kind } = sym;
                let kind = match kind {
                    SymbolKind::Function(f) => {
                        let crate::syms::func::FunctionTy { args, ret, kind, decl, cached: _ } = f;
                        SymbolKind::Function(crate::syms::func::FunctionTy { args, ret, kind, decl, cached: true })
                    },
                    other => other,
                };
                Ok(Symbol { name, generics, kind })
            },
            Err(n) => Err(n),
        };
        self.syms.insert(id.0 as usize, (res, ns, traits));
        proof {
            assert forall|i: int| 0 <= i < old(self).syms@.len() && i != id.0 implies #[trigger] self.syms@[i] == old(self).syms@[i] by {}
        }
    }

    /// A new closure with nothing captured yet.
    pub fn new_closure(&mut self) -> (r: ClosureId)
        requires
            old(self).closures@.len() < u32::MAX,
        ensures
            r.0 == old(self).closures@.len(),
            final(self).closures@.len() == old(self).closures@.len() + 1,
            forall|i: int| 0 <= i < old(self).closures@.len() ==> #[trigger] final(self).closures@[i] == old(self).closures@[i],
            final(self).closures@.last().captured_variables@.len() == 0,
            final(self).syms == old(self).syms,
            final(self).gens == old(self).gens,
            final(self).vars == old(self).vars,
    {
        let id = ClosureId(self.closures.len() as u32);
        self.closures.push(Closure { captured_variables: Vec::new() });
        id
    }

    pub fn closure(&self, id: ClosureId) -> (r: &Closure)
        requires
            id.0 < self.closures@.len(),
        ensures
            *r == self.closures@[id.0 as int],
    {
        &self.closures[id.0 as usize]
    }

    /// Records that closure `closure` captures `name` of type `ty`; a pair
    /// already recorded is not recorded again.
    pub fn insert_closure_capture(&mut self, closure: ClosureId, name: StringIndex, ty: Sym)
        requires
            closure.0 < old(self).closures@.len(),
        ensures
            final(self).closures@.len() == old(self).closures@.len(),
            forall|i: int| 0 <= i < old(self).closures@.len() && i != closure.0 ==> #[trigger] final(self).closures@[i] == old(self).closures@[i],
            final(self).closures@[closure.0 as int].captured_variables@ == (
                if old(self).closures@[closure.0 as int].captured_variables@.contains((name, ty)) {
                    old(self).closures@[closure.0 as int].captured_variables@
                } else {
                    old(self).closures@[closure.0 as int].captured_variables@.push((name, ty))
                }),
            final(self).syms == old(self).syms,
            final(self).gens == old(self).gens,
            final(self).vars == old(self).vars,
    {
        let c = self.closures.remove(closure.0 as usize);
        let mut caps = c.captured_variables;
        let mut i: usize = 0;
        let mut found = false;
        while i < caps.len()
            invariant
                0 <= i <= caps@.len(),
                found <==> caps@.subrange(0, i as int).contains((name, ty)),
            decreases caps@.len() - i,
        {
            if caps[i].0 == name && caps[i].1 == ty {
                found = true;
            }
            proof {
                let prev = caps@.subrange(0, i as int);
                let next = caps@.subrange(0, i + 1);
                assert(next =~= prev.push(caps@[i as int]));
                if prev.contains((name, ty)) {
                    let k = choose|k: int| 0 <= k < prev.len() && prev[k] == (name, ty);
                    assert(next[k] == (name, ty));
                }
                if caps@[i as int] == (name, ty) {
                    assert(next[i as int] == (name, ty));
                }
                if next.contains((name, ty)) {
                    let k = choose|k: int| 0 <= k < next.len() && next[k] == (name, ty);
                    if k < i {
                        assert(prev[k] == (name, ty));
                    }
                }
            }
            i = i + 1;
        }
        proof {
            assert(caps@.subrange(0, i as int) =~= caps@);
        }
        if !found {
            caps.push((name, ty));
        }
        self.closures.insert(closure.0 as usize, Closure { captured_variables: caps });
        proof {
            assert forall|i: int| 0 <= i < old(self).closures@.len() && i != closure.0 implies #[trigger] self.closures@[i] == old(self).closures@[i] by {}
        }
    }
}

impl Var {
    /// The variable stands for a type, directly or through one other variable
    /// that stands for a symbol type.
    pub fn is_concrete(&self, map: &SymbolMap) -> (r: bool)
        requires
            map.wf(),
            self.sub matches VarSub::Concrete(Sym::Var(w)) ==> w.0 < map.vars@.len(),
        ensures
            r == match self.sub {
                VarSub::Concrete(t) => map.shallow(t) is Ty,
                _ => false,
            },
    {
        match self.sub {
            VarSub::Concrete(ty) => {
                match ty.instantiate_shallow(map) {
                    Sym::Ty(..) => true,
                    Sym::Var(_) => false,
                }
            },
            _ => false,
        }
    }

    /// The variable stands for no type yet; one bound to a variable must be
    /// bound to one that is itself unbound.
    pub fn is_root(&self, map: &SymbolMap) -> (r: bool)
        requires
            map.wf(),
            self.sub matches VarSub::Concrete(t) ==> t is Var && t->Var_0.0 < map.vars@.len()
                && map.shallow(t) is Var,
        ensures
            r == !(self.sub is Concrete),
    {
        match self.sub {
            VarSub::Concrete(_) => false,
            _ => true,
        }
    }

    pub fn set_sub(&mut self, sub: VarSub)
        ensures
            final(self).sub == sub,
            final(self).name == old(self).name,
            final(self).node == old(self).node,
            final(self).range == old(self).range,
    {
        self.sub = sub;
    }
}


/// `a` and `b` are the same tree of generics: the same ranges, errors,
/// parameters (with their bounds) and symbols, in the same places.
pub open spec fn same_generic(a: Generic, b: Generic) -> bool
    decreases a,
{
    &&& a.range == b.range
    &&& a.err == b.err
    &&& match (a.kind, b.kind) {
        (GenericKind::Generic(x), GenericKind::Generic(y)) => x.name == y.name && x.bounds@ == y.bounds@,
        (GenericKind::Sym(s, v), GenericKind::Sym(t, w)) => {
            &&& s == t
            &&& v@.len() == w@.len()
            &&& forall|i: int| 0 <= i < v@.len() ==> same_generic(#[trigger] v@[i], w@[i])
        },
        _ => false,
    }
}

/// `r` is `g` with every parameter named `name` replaced by `repl`.
pub open spec fn is_replacement(r: Generic, g: Generic, name: StringIndex, repl: Generic) -> bool
    decreases g,
{
    match g.kind {
        GenericKind::Generic(v) => if v.name == name { same_generic(repl, r) } else { same_generic(g, r) },
        GenericKind::Sym(s, args) => {
            &&& r.range == g.range
            &&& r.err == g.err
            &&& r.kind is Sym
            &&& r.kind->Sym_0 == s
            &&& r.kind->Sym_1@.len() == args@.len()
            &&& forall|i: int| 0 <= i < args@.len() ==> is_replacement(#[trigger] r.kind->Sym_1@[i], args@[i], name, repl)
        },
    }
}

impl BoundedGeneric {
    /// A copy of this parameter and its bounds.
    pub fn duplicate(&self) -> (r: BoundedGeneric)
        ensures
            r.name == self.name,
            r.bounds@ == self.bounds@,
    {
        let mut bounds: Vec<SymbolId> = Vec::new();
        let mut i: usize = 0;
        while i < self.bounds.len()
            invariant
                0 <= i <= self.bounds@.len(),
                bounds@ =~= self.bounds@.subrange(0, i as int),
            decreases self.bounds@.len() - i,
        {
            bounds.push(self.bounds[i]);
            i = i + 1;
        }
        BoundedGeneric { name: self.name, bounds }
    }
}

impl Generic {
    /// A copy of this tree of generics.
    pub fn duplicate(&self) -> (r: Generic)
        ensures
            same_generic(*self, r),
        decreases self,
    {
        match &self.kind {
            GenericKind::Generic(v) => Generic { range: self.range, kind: GenericKind::Generic(v.duplicate()), err: self.err },
            GenericKind::Sym(sym, args) => {
                let mut out: Vec<Generic> = Vec::new();
                let mut i: usize = 0;
                while i < args.len()
                    invariant
                        0 <= i <= args@.len(),
                        out@.len() == i,
                        self.kind == GenericKind::Sym(*sym, *args),
                        forall|j: int| 0 <= j < i ==> same_generic(#[trigger] args@[j], out@[j]),
                    decreases args@.len() - i,
                {
                    proof {
                        vstd::std_specs::vec::axiom_vec_index_decreases(*args, i as int);
                        assert(self.kind->Sym_1 == *args);
                        assert(decreases_to!(self.kind => self.kind->Sym_1));
                        assert(decreases_to!(*self => self.kind));
                    }
                    let g = args[i].duplicate();
                    out.push(g);
                    i = i + 1;
                }
                Generic { range: self.range, kind: GenericKind::Sym(*sym, out), err: self.err }
            },
        }
    }

    /// This tree with every parameter named `gen_name` replaced by `repl`.
    pub fn rec_replace(&self, gen_name: StringIndex, repl: &Generic) -> (r: Generic)
        ensures
            is_replacement(r, *self, gen_name, *repl),
        decreases self,
    {
        match &self.kind {
            GenericKind::Generic(v) => {
                if v.name == gen_name {
                    repl.duplicate()
                } else {
                    self.duplicate()
                }
            },
            GenericKind::Sym(symbol, generics) => {
                let mut vec: Vec<Generic> = Vec::new();
                let mut i: usize = 0;
                while i < generics.len()
                    invariant
                        0 <= i <= generics@.len(),
                        vec@.len() == i,
                        self.kind == GenericKind::Sym(*symbol, *generics),
                        forall|j: int| 0 <= j < i ==> is_replacement(#[trigger] vec@[j], generics@[j], gen_name, *repl),
                    decreases generics@.len() - i,
                {
                    proof {
                        vstd::std_specs::vec::axiom_vec_index_decreases(*generics, i as int);
                        assert(self.kind->Sym_1 == *generics);
                        assert(decreases_to!(self.kind => self.kind->Sym_1));
                        assert(decreases_to!(*self => self.kind));
                    }
                    vec.push(generics[i].rec_replace(gen_name, repl));
                    i = i + 1;
                }
                Generic::new(self.range, GenericKind::Sym(*symbol, vec), self.err)
            },
        }
    }
}

/// A generic list entry by value: the parameter's name and bounds, and the
/// type it stands for.
pub open spec fn gen_entry(e: (BoundedGeneric, Sym)) -> (StringIndex, Seq<SymbolId>, Sym) {
    (e.0.name, e.0.bounds@, e.1)
}

/// Each parameter of `names` paired with the type in the same position, as
/// far as both go.
pub open spec fn zip_entries(names: Seq<BoundedGeneric>, args: Seq<Sym>) -> Seq<(StringIndex, Seq<SymbolId>, Sym)> {
    let n = if names.len() < args.len() { names.len() } else { args.len() };
    Seq::new(n, |i: int| (names[i].name, names[i].bounds@, args[i]))
}

impl SymbolMap {
    /// The entries of generic list `g`, by value.
    pub open spec fn list(&self, g: GenListId) -> Seq<(StringIndex, Seq<SymbolId>, Sym)> {
        self.gens@[g.0 as int]@.map_values(|e: (BoundedGeneric, Sym)| gen_entry(e))
    }

    /// The type of symbol `ty` applied to `generics`, each argument paired
    /// with the parameter in the same position (as far as both go).
    pub fn get_ty(&mut self, ty: SymbolId, generics: &[Sym]) -> (r: Sym)
        requires
            ty.0 < old(self).syms@.len(),
            old(self).syms@[ty.0 as int].0 is Ok,
            old(self).gens@.len() < u32::MAX,
            old(self).gens@.len() >= 1,
            old(self).gens@[0]@.len() == 0,
        ensures
            final(self).syms == old(self).syms,
            final(self).vars == old(self).vars,
            final(self).closures == old(self).closures,
            final(self).gens@.len() >= old(self).gens@.len(),
            final(self).gens@.len() <= old(self).gens@.len() + 1,
            forall|i: int| 0 <= i < old(self).gens@.len() ==> #[trigger] final(self).gens@[i] == old(self).gens@[i],
            r matches Sym::Ty(s, g) && s == ty && g.0 < final(self).gens@.len()
                && final(self).list(g) == zip_entries(old(self).syms@[ty.0 as int].0->Ok_0.generics@, generics@)
                && (generics@.len() == 0 ==> g.0 == GenListId::EMPTY),
    {
        let n = if self.sym(ty).generics.len() < generics.len() {
            self.sym(ty).generics.len()
        } else {
            generics.len()
        };
        let ghost names = self.syms@[ty.0 as int].0->Ok_0.generics@;
        let mut vec: Vec<(BoundedGeneric, Sym)> = Vec::new();
        let mut i: usize = 0;
        while i < n
            invariant
                0 <= i <= n,
                ty.0 < self.syms@.len(),
                self.syms@[ty.0 as int].0 is Ok,
                names == self.syms@[ty.0 as int].0->Ok_0.generics@,
                n == zip_entries(names, generics@).len(),
                vec@.map_values(|e: (BoundedGeneric, Sym)| gen_entry(e)) =~= zip_entries(names, generics@).subrange(0, i as int),
            decreases n - i,
        {
            let ghost before = vec@;
            let sym = self.sym(ty);
            let b = sym.generics[i].duplicate();
            proof {
                assert(sym.generics@[i as int] == names[i as int]);
            }
            vec.push((b, generics[i]));
            proof {
                assert(vec@ == before.push((b, generics@[i as int])));
                assert(vec@.map_values(|e: (BoundedGeneric, Sym)| gen_entry(e))
                    =~= before.map_values(|e: (BoundedGeneric, Sym)| gen_entry(e)).push(gen_entry((b, generics@[i as int]))));
                assert(zip_entries(names, generics@).subrange(0, i + 1)
                    =~= zip_entries(names, generics@).subrange(0, i as int).push(zip_entries(names, generics@)[i as int]));
            }
            i = i + 1;
        }
        proof {
            assert(vec@.map_values(|e: (BoundedGeneric, Sym)| gen_entry(e)) =~= zip_entries(names, generics@));
        }
        let ghost v = vec@;
        let gens = if generics.len() == 0 {
            GenListId(GenListId::EMPTY)
        } else {
            self.add_gens(vec)
        };
        proof {
            if generics@.len() != 0 && v.len() == 0 {
                assert(self.list(gens) =~= zip_entries(names, generics@));
            }
            if generics@.len() == 0 {
                assert(self.list(gens) =~= zip_entries(names, generics@));
            }
        }
        Sym::Ty(ty, gens)
    }
}


/// The type of the first entry of `gs` for the parameter named `name`.
pub open spec fn find_param(gs: Seq<(BoundedGeneric, Sym)>, name: StringIndex) -> Option<Sym>
    decreases gs.len(),
{
    if gs.len() == 0 {
        None
    } else if gs[0].0.name == name {
        Some(gs[0].1)
    } else {
        find_param(gs.drop_first(), name)
    }
}

/// Every parameter that `g` mentions has an entry in `gs`.
pub open spec fn params_found(g: Generic, gs: Seq<(BoundedGeneric, Sym)>) -> bool
    decreases g,
{
    match g.kind {
        GenericKind::Generic(v) => find_param(gs, v.name) is Some,
        GenericKind::Sym(_, args) => forall|i: int| 0 <= i < args@.len() ==> params_found(#[trigger] args@[i], gs),
    }
}

/// Every symbol that `g` names is defined in `syms`.
pub open spec fn syms_defined(syms: Seq<(Result<Symbol, usize>, NamespaceId, HashMap<u32, (NamespaceId, Generic, Vec<BoundedGeneric>)>)>, g: Generic) -> bool
    decreases g,
{
    match g.kind {
        GenericKind::Generic(_) => true,
        GenericKind::Sym(s, args) => {
            &&& s.0 < syms.len()
            &&& syms[s.0 as int].0 is Ok
            &&& forall|i: int| 0 <= i < args@.len() ==> syms_defined(syms, #[trigger] args@[i])
        },
    }
}

/// The number of symbol nodes in `g`: a bound on the generic lists that
/// turning it into a type adds.
pub open spec fn sym_nodes(g: Generic) -> nat
    decreases g,
{
    match g.kind {
        GenericKind::Generic(_) => 0,
        GenericKind::Sym(_, args) => 1 + sym_nodes_seq(args@),
    }
}

pub open spec fn sym_nodes_seq(s: Seq<Generic>) -> nat
    decreases s,
{
    if s.len() == 0 {
        0
    } else {
        sym_nodes_seq(s.drop_last()) + sym_nodes(s.last())
    }
}

proof fn lemma_sym_nodes_prefix(s: Seq<Generic>, i: int)
    requires
        0 <= i <= s.len(),
    ensures
        sym_nodes_seq(s.subrange(0, i)) <= sym_nodes_seq(s),
    decreases s.len(),
{
    if i < s.len() {
        lemma_sym_nodes_prefix(s.drop_last(), i);
        assert(s.drop_last().subrange(0, i) =~= s.subrange(0, i));
    } else {
        assert(s.subrange(0, i) =~= s);
    }
}

/// `t` is the type that `g` stands for in map `m`, each parameter taken from
/// `gs`.
pub open spec fn denotes(m: SymbolMap, t: Sym, g: Generic, gs: Seq<(BoundedGeneric, Sym)>) -> bool
    decreases g,
{
    match g.kind {
        GenericKind::Generic(v) => find_param(gs, v.name) == Some(t),
        GenericKind::Sym(s, args) => {
            &&& t is Ty
            &&& t->Ty_0 == s
            &&& t->Ty_1.0 < m.gens@.len()
            &&& s.0 < m.syms@.len()
            &&& m.syms@[s.0 as int].0 is Ok
            &&& (args@.len() == 0 ==> t->Ty_1.0 == GenListId::EMPTY)
            &&& m.list(t->Ty_1) == zip_entries(m.syms@[s.0 as int].0->Ok_0.generics@, m.list(t->Ty_1).map_values(|e: (StringIndex, Seq<SymbolId>, Sym)| e.2))
            &&& m.list(t->Ty_1).len() == (if m.syms@[s.0 as int].0->Ok_0.generics@.len() < args@.len() {
                    m.syms@[s.0 as int].0->Ok_0.generics@.len()
                } else {
                    args@.len()
                })
            &&& forall|i: int| 0 <= i < m.list(t->Ty_1).len() && i < args@.len() ==>
                denotes(m, (#[trigger] m.list(t->Ty_1)[i]).2, args@[i], gs)
        },
    }
}

/// What a generic stands for stays so in a map that only gained lists.
proof fn lemma_denotes_grow(m1: SymbolMap, m2: SymbolMap, t: Sym, g: Generic, gs: Seq<(BoundedGeneric, Sym)>)
    requires
        m2.syms == m1.syms,
        m2.gens@.len() >= m1.gens@.len(),
        forall|i: int| 0 <= i < m1.gens@.len() ==> #[trigger] m2.gens@[i] == m1.gens@[i],
        denotes(m1, t, g, gs),
    ensures
        denotes(m2, t, g, gs),
    decreases g,
{
    if let GenericKind::Sym(s, args) = g.kind {
        let l = t->Ty_1;
        assert(m2.gens@[l.0 as int] == m1.gens@[l.0 as int]);
        assert(m2.list(l) == m1.list(l));
        assert forall|i: int| 0 <= i < m2.list(l).len() && i < args@.len() implies
            denotes(m2, (#[trigger] m2.list(l)[i]).2, args@[i], gs) by {
            lemma_denotes_grow(m1, m2, m1.list(l)[i].2, args@[i], gs);
        }
    }
}

impl Generic {
    /// The type this generic stands for, each parameter taken from `gens`
    /// (the first entry with its name).
    pub fn to_ty(&self, gens: &[(BoundedGeneric, Sym)], map: &mut SymbolMap) -> (r: Result<Sym, Error>)
        requires
            params_found(*self, gens@),
            syms_defined(old(map).syms@, *self),
            old(map).gens@.len() >= 1,
            old(map).gens@[0]@.len() == 0,
            old(map).gens@.len() + sym_nodes(*self) < u32::MAX,
        ensures
            final(map).syms == old(map).syms,
            final(map).vars == old(map).vars,
            final(map).closures == old(map).closures,
            final(map).gens@.len() >= old(map).gens@.len(),
            final(map).gens@.len() <= old(map).gens@.len() + sym_nodes(*self),
            forall|i: int| 0 <= i < old(map).gens@.len() ==> #[trigger] final(map).gens@[i] == old(map).gens@[i],
            r matches Ok(t) && denotes(*final(map), t, *self, gens@),
        decreases self,
    {
        let ghost m0 = *map;
        match &self.kind {
            GenericKind::Generic(v) => {
                let mut i: usize = 0;
                proof {
                    assert(gens@.subrange(0, gens@.len() as int) =~= gens@);
                }
                while i < gens.len()
                    invariant
                        0 <= i <= gens@.len(),
                        self.kind == GenericKind::Generic(*v),
                        find_param(gens@, v.name) is Some,
                        find_param(gens@, v.name) == find_param(gens@.subrange(i as int, gens@.len() as int), v.name),
                    decreases gens@.len() - i,
                {
                    proof {
                        let rest = gens@.subrange(i as int, gens@.len() as int);
                        assert(rest[0] == gens@[i as int]);
                        assert(rest.drop_first() =~= gens@.subrange(i + 1, gens@.len() as int));
                    }
                    if gens[i].0.name == v.name {
                        return Ok(gens[i].1);
                    }
                    i = i + 1;
                }
                proof {
                    assert(gens@.subrange(i as int, gens@.len() as int) =~= Seq::<(BoundedGeneric, Sym)>::empty());
                    assert(false);
                }
                Err(Error::Bypass)
            },
            GenericKind::Sym(symbol, generics) => {
                let mut vec: Vec<Sym> = Vec::new();
                let mut i: usize = 0;
                while i < generics.len()
                    invariant
                        0 <= i <= generics@.len(),
                        self.kind == GenericKind::Sym(*symbol, *generics),
                        params_found(*self, gens@),
                        syms_defined(m0.syms@, *self),
                        m0 == *old(map),
                        m0.gens@.len() >= 1,
                        m0.gens@[0]@.len() == 0,
                        m0.gens@.len() + sym_nodes(*self) < u32::MAX,
                        map.syms == m0.syms,
                        map.vars == m0.vars,
                        map.closures == m0.closures,
                        map.gens@.len() >= m0.gens@.len(),
                        map.gens@.len() <= m0.gens@.len() + sym_nodes_seq(generics@.subrange(0, i as int)),
                        forall|j: int| 0 <= j < m0.gens@.len() ==> #[trigger] map.gens@[j] == m0.gens@[j],
                        vec@.len() == i,
                        forall|j: int| 0 <= j < i ==> denotes(*map, #[trigger] vec@[j], generics@[j], gens@),
                    decreases generics@.len() - i,
                {
                    proof {
                        vstd::std_specs::vec::axiom_vec_index_decreases(*generics, i as int);
                        assert(self.kind->Sym_1 == *generics);
                        assert(decreases_to!(self.kind => self.kind->Sym_1));
                        assert(decreases_to!(*self => self.kind));
                        assert(params_found(generics@[i as int], gens@));
                        assert(syms_defined(m0.syms@, generics@[i as int]));
                        lemma_sym_nodes_prefix(generics@, i + 1);
                        let pre = generics@.subrange(0, i + 1);
                        assert(pre.drop_last() =~= generics@.subrange(0, i as int));
                        assert(pre.last() == generics@[i as int]);
                    }
                    let ghost mb = *map;
                    let t = generics[i].to_ty(gens, map);
                    match t {
                        Ok(t) => {
                            proof {
                                let m2 = *map;
                                assert forall|j: int| 0 <= j < i implies denotes(m2, #[trigger] vec@[j], generics@[j], gens@) by {
                                    lemma_denotes_grow(mb, m2, vec@[j], generics@[j], gens@);
                                }
                            }
                            vec.push(t);
                        },
                        Err(e) => {
                            return Err(e);
                        },
                    }
                    i = i + 1;
                }
                proof {
                    assert(generics@.subrange(0, i as int) =~= generics@);
                }
                let ghost mb = *map;
                let t = map.get_ty(*symbol, vec.as_slice());
                proof {
                    let m2 = *map;
                    let l = t->Ty_1;
                    assert(m2.list(l).map_values(|e: (StringIndex, Seq<SymbolId>, Sym)| e.2) =~= vec@.subrange(0, m2.list(l).len() as int));
                    assert(zip_entries(m2.syms@[symbol.0 as int].0->Ok_0.generics@, vec@)
                        =~= zip_entries(m2.syms@[symbol.0 as int].0->Ok_0.generics@, m2.list(l).map_values(|e: (StringIndex, Seq<SymbolId>, Sym)| e.2)));
                    assert forall|j: int| 0 <= j < m2.list(l).len() && j < generics@.len() implies
                        denotes(m2, (#[trigger] m2.list(l)[j]).2, generics@[j], gens@) by {
                        lemma_denotes_grow(mb, m2, vec@[j], generics@[j], gens@);
                    }
                }
                Ok(t)
            },
        }
    }
}


/// A list of generic parameters by value: names and bounds.
pub open spec fn params(v: Seq<BoundedGeneric>) -> Seq<(StringIndex, Seq<SymbolId>)> {
    v.map_values(|b: BoundedGeneric| (b.name, b.bounds@))
}

/// The return type of an enum's variant constructors: the enum applied to
/// its own parameters, every part at `range`.
pub open spec fn is_enum_ret(g: Generic, range: SourceRange, id: SymbolId, generics: Seq<BoundedGeneric>) -> bool {
    &&& g.range == range
    &&& g.err is None
    &&& g.kind is Sym
    &&& g.kind->Sym_0 == id
    &&& g.kind->Sym_1@.len() == generics.len()
    &&& forall|j: int| 0 <= j < generics.len() ==> {
        &&& (#[trigger] g.kind->Sym_1@[j]).range == range
        &&& g.kind->Sym_1@[j].err is None
        &&& g.kind->Sym_1@[j].kind is Generic
        &&& g.kind->Sym_1@[j].kind->Generic_0.name == generics[j].name
        &&& g.kind->Sym_1@[j].kind->Generic_0.bounds@ == generics[j].bounds@
    }
}

/// `s` is the constructor of variant `index` of enum `id`: named `fn_name`,
/// with the enum's parameters, taking no argument when the variant holds
/// unit and else one argument `value` of the variant's type, and returning
/// the enum.
pub open spec fn is_variant_fn(s: Symbol, fn_name: StringIndex, generics: Seq<BoundedGeneric>, value: StringIndex,
                              arg: Generic, range: SourceRange, id: SymbolId, index: usize, decl: Option<DeclId>) -> bool {
    &&& s.name == fn_name
    &&& params(s.generics@) == params(generics)
    &&& s.kind is Function
    &&& (if arg.kind matches GenericKind::Sym(u, _) && u.0 == SymbolId::UNIT {
        s.kind->Function_0.args@.len() == 0
    } else {
        &&& s.kind->Function_0.args@.len() == 1
        &&& s.kind->Function_0.args@[0].name == value
        &&& same_generic(arg, s.kind->Function_0.args@[0].symbol)
    })
    &&& is_enum_ret(s.kind->Function_0.ret, range, id, generics)
    &&& s.kind->Function_0.kind == FunctionKind::Enum { sym: id, index }
    &&& s.kind->Function_0.decl == decl
    &&& !s.kind->Function_0.cached
}

/// Every name of `names` is distinct, and the namespace entries `m` hold
/// none of them (or, harmlessly, exactly the symbol it will be added with).
pub open spec fn names_free(m: Map<u32, SymbolEntry>, names: Seq<StringIndex>, first: nat) -> bool {
    &&& forall|i: int, j: int| 0 <= i < j < names.len() ==> names[i] != names[j]
    &&& forall|i: int| 0 <= i < names.len() ==> !m.contains_key((#[trigger] names[i]).0)
        || m[names[i].0].result == Ok::<SymbolId, Error>(SymbolId((first + i) as u32))
}

fn copy_params(v: &Vec<BoundedGeneric>) -> (r: Vec<BoundedGeneric>)
    ensures
        r@.len() == v@.len(),
        params(r@) == params(v@),
{
    let mut out: Vec<BoundedGeneric> = Vec::new();
    let mut i: usize = 0;
    while i < v.len()
        invariant
            0 <= i <= v@.len(),
            out@.len() == i,
            params(out@) =~= params(v@).subrange(0, i as int),
        decreases v@.len() - i,
    {
        let b = v[i].duplicate();
        let ghost before = out@;
        out.push(b);
        proof {
            assert(out@ == before.push(b));
            assert(params(out@) =~= params(before).push((b.name, b.bounds@)));
        }
        i = i + 1;
    }
    out
}

fn enum_ret(range: SourceRange, id: SymbolId, generics: &Vec<BoundedGeneric>) -> (r: Generic)
    ensures
        is_enum_ret(r, range, id, generics@),
{
    let mut vec: Vec<Generic> = Vec::new();
    let mut i: usize = 0;
    while i < generics.len()
        invariant
            0 <= i <= generics@.len(),
            vec@.len() == i,
            forall|j: int| 0 <= j < i ==> {
                &&& (#[trigger] vec@[j]).range == range
                &&& vec@[j].err is None
                &&& vec@[j].kind is Generic
                &&& vec@[j].kind->Generic_0.name == generics@[j].name
                &&& vec@[j].kind->Generic_0.bounds@ == generics@[j].bounds@
            },
        decreases generics@.len() - i,
    {
        vec.push(Generic::new(range, GenericKind::Generic(generics[i].duplicate()), None));
        i = i + 1;
    }
    Generic::new(range, GenericKind::Sym(id, vec), None)
}

proof fn lemma_add_all_free(m: Map<u32, SymbolEntry>, source: SourceRange, names: Seq<StringIndex>, first: nat, k: int)
    requires
        names_free(m, names, first),
        0 <= k < names.len(),
    ensures
        !add_all(m, source, names.subrange(0, k), first).contains_key(names[k].0)
            || add_all(m, source, names.subrange(0, k), first)[names[k].0].result == Ok::<SymbolId, Error>(SymbolId((first + k) as u32)),
    decreases k,
{
    if k > 0 {
        let pre = names.subrange(0, k);
        assert(pre.drop_last() =~= names.subrange(0, k - 1));
        assert(pre.last() == names[k - 1]);
        assert(names[k - 1] != names[k]);
        let fr = names.subrange(0, k);
        assert(names_free(m, names.subrange(0, k), first)) by {
            assert forall|i: int| 0 <= i < fr.len() implies !m.contains_key((#[trigger] fr[i]).0)
                || m[fr[i].0].result == Ok::<SymbolId, Error>(SymbolId((first + i) as u32)) by {
                assert(fr[i] == names[i]);
            }
        }
        lemma_add_all_keys(m, source, names.subrange(0, k - 1), first, names[k]);
    }
}

/// Adding names other than `x` leaves the entry of `x` as it was.
proof fn lemma_add_all_keys(m: Map<u32, SymbolEntry>, source: SourceRange, names: Seq<StringIndex>, first: nat, x: StringIndex)
    requires
        forall|i: int| 0 <= i < names.len() ==> (#[trigger] names[i]).0 != x.0,
    ensures
        add_all(m, source, names, first).contains_key(x.0) == m.contains_key(x.0),
        m.contains_key(x.0) ==> add_all(m, source, names, first)[x.0] == m[x.0],
    decreases names.len(),
{
    if names.len() > 0 {
        let d = names.drop_last();
        assert forall|i: int| 0 <= i < d.len() implies (#[trigger] d[i]).0 != x.0 by {
            assert(d[i] == names[i]);
        }
        lemma_add_all_keys(m, source, d, first, x);
        assert(names.last() == names[names.len() - 1]);
    }
}

impl SymbolMap {
    /// Defines the enum reserved under `id` and registers one constructor
    /// function per variant: the `i`th is named `variant_fns[i]` (the enum's
    /// name joined with the variant's), has the enum's parameters, takes no
    /// argument for a unit variant and else the variant's value as `value`,
    /// returns the enum, and is entered, as private, under the variant's name
    /// in the enum's namespace, whose child its own namespace is.
    pub fn add_enum(
        &mut self,
        id: SymbolId,
        ns_map: &mut NamespaceMap,
        range: SourceRange,
        name: StringIndex,
        mappings: Vec<(StringIndex, Generic)>,
        generics: Vec<BoundedGeneric>,
        decl: Option<DeclId>,
        variant_fns: Vec<StringIndex>,
        value: StringIndex,
    )
        requires
            id.0 < old(self).syms@.len(),
            old(self).syms@[id.0 as int].0 == Err::<Symbol, usize>(generics@.len() as usize),
            variant_fns@.len() == mappings@.len(),
            old(ns_map).wf(),
            forall|i: int| 0 <= i < old(self).syms@.len() ==> (#[trigger] old(self).syms@[i]).1.0 < old(ns_map).map@.len(),
            old(ns_map).map@.len() + mappings@.len() < u32::MAX,
            old(self).syms@.len() + mappings@.len() < u32::MAX,
            names_free(old(ns_map).map@[old(self).syms@[id.0 as int].1.0 as int].symbols@,
                       mappings@.map_values(|m: (StringIndex, Generic)| m.0), old(self).syms@.len()),
        ensures
            final(ns_map).wf(),
            final(self).gens == old(self).gens,
            final(self).vars == old(self).vars,
            final(self).closures == old(self).closures,
            final(self).syms@.len() == old(self).syms@.len() + mappings@.len(),
            forall|i: int| 0 <= i < old(self).syms@.len() && i != id.0 ==> #[trigger] final(self).syms@[i] == old(self).syms@[i],
            final(self).syms@[id.0 as int].0 is Ok,
            final(self).syms@[id.0 as int].0->Ok_0.name == name,
            params(final(self).syms@[id.0 as int].0->Ok_0.generics@) == params(generics@),
            final(self).syms@[id.0 as int].0->Ok_0.kind == SymbolKind::Container(Container { fields: mappings, kind: ContainerKind::Enum }),
            final(self).syms@[id.0 as int].1 == old(self).syms@[id.0 as int].1,
            forall|i: int| 0 <= i < mappings@.len() ==> {
                &&& (#[trigger] final(self).syms@[old(self).syms@.len() + i]).0 is Ok
                &&& is_variant_fn(final(self).syms@[old(self).syms@.len() + i].0->Ok_0, variant_fns@[i], generics@, value,
                                  mappings@[i].1, range, id, i as usize, decl)
                &&& final(self).syms@[old(self).syms@.len() + i].1.0 == old(ns_map).map@.len() + i
            },
            final(ns_map).map@.len() == old(ns_map).map@.len() + mappings@.len(),
            forall|i: int| 0 <= i < mappings@.len() ==> {
                &&& (#[trigger] final(ns_map).map@[old(ns_map).map@.len() + i]).symbols@ == Map::<u32, SymbolEntry>::empty()
                &&& final(ns_map).map@[old(ns_map).map@.len() + i].path == variant_fns@[i]
                &&& final(ns_map).map@[old(ns_map).map@.len() + i].parent == Some(old(self).syms@[id.0 as int].1)
            },
            forall|i: int| 0 <= i < old(ns_map).map@.len() && i != old(self).syms@[id.0 as int].1.0 ==>
                #[trigger] final(ns_map).map@[i] == old(ns_map).map@[i],
            final(ns_map).map@[old(self).syms@[id.0 as int].1.0 as int].symbols@ == add_all(
                old(ns_map).map@[old(self).syms@[id.0 as int].1.0 as int].symbols@,
                range,
                mappings@.map_values(|m: (StringIndex, Generic)| m.0),
                old(self).syms@.len(),
            ),
            final(ns_map).map@[old(self).syms@[id.0 as int].1.0 as int].path
                == old(ns_map).map@[old(self).syms@[id.0 as int].1.0 as int].path,
            final(ns_map).map@[old(self).syms@[id.0 as int].1.0 as int].parent
                == old(ns_map).map@[old(self).syms@[id.0 as int].1.0 as int].parent,
    {
        let ghost m0 = *self;
        let ghost n0 = *ns_map;
        let ghost keys = mappings@.map_values(|m: (StringIndex, Generic)| m.0);
        let n = mappings.len();
        let mut names: Vec<StringIndex> = Vec::new();
        let mut tys: Vec<Generic> = Vec::new();
        let mut i: usize = 0;
        while i < n
            invariant
                n == mappings@.len(),
                0 <= i <= n,
                names@ =~= keys.subrange(0, i as int),
                keys == mappings@.map_values(|m: (StringIndex, Generic)| m.0),
                tys@.len() == i,
                forall|j: int| 0 <= j < i ==> same_generic(mappings@[j].1, #[trigger] tys@[j]),
            decreases n - i,
        {
            names.push(mappings[i].0);
            tys.push(mappings[i].1.duplicate());
            i = i + 1;
        }
        let ghost maps = mappings;
        let sk = SymbolKind::Container(Container::new(mappings, ContainerKind::Enum));
        let own_generics = copy_params(&generics);
        let sym = Symbol::new(name, own_generics, sk);
        self.add_sym(id, sym);
        let ns = self.sym_ns(id);
        let ghost m1 = *self;
        let mut i: usize = 0;
        while i < n
            invariant
                n == maps@.len(),
                n == names@.len(),
                n == tys@.len(),
                n == variant_fns@.len(),
                0 <= i <= n,
                names@ == keys,
                forall|j: int| 0 <= j < n ==> same_generic(maps@[j].1, #[trigger] tys@[j]),
                ns == m0.syms@[id.0 as int].1,
                ns.0 < n0.map@.len(),
                ns_map.wf(),
                names_free(n0.map@[ns.0 as int].symbols@, keys, m0.syms@.len()),
                forall|j: int| 0 <= j < self.syms@.len() ==> (#[trigger] self.syms@[j]).1.0 < ns_map.map@.len(),
                self.gens == m0.gens,
                self.vars == m0.vars,
                self.closures == m0.closures,
                n0.map@.len() + n < u32::MAX,
                m0.syms@.len() + n < u32::MAX,
                self.syms@.len() == m0.syms@.len() + i,
                ns_map.map@.len() == n0.map@.len() + i,
                forall|j: int| 0 <= j < m1.syms@.len() ==> #[trigger] self.syms@[j] == m1.syms@[j],
                forall|j: int| 0 <= j < i ==> {
                    &&& (#[trigger] self.syms@[m0.syms@.len() + j]).0 is Ok
                    &&& is_variant_fn(self.syms@[m0.syms@.len() + j].0->Ok_0, variant_fns@[j], generics@, value,
                                      maps@[j].1, range, id, j as usize, decl)
                    &&& self.syms@[m0.syms@.len() + j].1.0 == n0.map@.len() + j
                },
                forall|j: int| 0 <= j < i ==> {
                    &&& (#[trigger] ns_map.map@[n0.map@.len() + j]).symbols@ == Map::<u32, SymbolEntry>::empty()
                    &&& ns_map.map@[n0.map@.len() + j].path == variant_fns@[j]
                    &&& ns_map.map@[n0.map@.len() + j].parent == Some(ns)
                },
                forall|j: int| 0 <= j < n0.map@.len() && j != ns.0 ==> #[trigger] ns_map.map@[j] == n0.map@[j],
                ns_map.map@[ns.0 as int].symbols@ == add_all(n0.map@[ns.0 as int].symbols@, range, keys.subrange(0, i as int), m0.syms@.len()),
                ns_map.map@[ns.0 as int].path == n0.map@[ns.0 as int].path,
                ns_map.map@[ns.0 as int].parent == n0.map@[ns.0 as int].parent,
                m1.syms@.len() == m0.syms@.len(),
            decreases n - i,
        {
            let ret = enum_ret(range, id, &generics);
            let is_unit = match tys[i].sym() {
                Some(s) => s.0 == SymbolId::UNIT,
                None => false,
            };
            let args = if is_unit {
                Vec::new()
            } else {
                let arg = tys[i].duplicate();
                proof {
                    lemma_same_generic_trans(maps@[i as int].1, tys@[i as int], arg);
                }
                vec![FunctionArgument::new(value, arg)]
            };
            proof {
                lemma_same_generic_sym_kind(maps@[i as int].1, tys@[i as int]);
            }
            let f = FunctionTy::new(args, ret, FunctionKind::Enum { sym: id, index: i }, decl);
            let fsym = Symbol::new(variant_fns[i], copy_params(&generics), SymbolKind::Function(f));
            let ghost sb = *self;
            let ghost nb = *ns_map;
            let vid = self.pending(ns_map, Some(ns), variant_fns[i], generics.len());
            self.add_sym(vid, fsym);
            let ghost nc = *ns_map;
            proof {
                let ks = keys.subrange(0, i as int);
                lemma_add_all_free(n0.map@[ns.0 as int].symbols@, range, keys, m0.syms@.len(), i as int);
                assert(keys[i as int] == names@[i as int]);
            }
            let nsr = ns_map.get_ns_mut(ns);
            let res = nsr.add_sym(range, names[i], vid, Visibility::Private);
            proof {
                assert(res is Ok);
            }
            proof {
                let nm = *ns_map;
                assert forall|j: int| 0 <= j < nm.map@.len() implies match #[trigger] nm.map@[j].parent {
                    Some(p) => p.0 < j,
                    None => true,
                } by {
                    assert(nc.map@[j].parent == nc.map@[j].parent);
                }
                let ks = keys.subrange(0, i + 1);
                assert(ks.drop_last() =~= keys.subrange(0, i as int));
                assert(ks.last() == names@[i as int]);
                assert forall|j: int| 0 <= j < m1.syms@.len() implies #[trigger] self.syms@[j] == m1.syms@[j] by {
                    assert(sb.syms@[j] == m1.syms@[j]);
                }
                assert forall|j: int| 0 <= j < self.syms@.len() implies (#[trigger] self.syms@[j]).1.0 < nm.map@.len() by {
                    if j < sb.syms@.len() {
                        assert(sb.syms@[j].1.0 < nb.map@.len());
                    }
                }
            }
            i = i + 1;
        }
        proof {
            assert(keys.subrange(0, n as int) =~= keys);
        }
    }
}

proof fn lemma_same_generic_trans(a: Generic, b: Generic, c: Generic)
    requires
        same_generic(a, b),
        same_generic(b, c),
    ensures
        same_generic(a, c),
    decreases a,
{
    if let (GenericKind::Sym(s, v), GenericKind::Sym(t, w), GenericKind::Sym(u, x)) = (a.kind, b.kind, c.kind) {
        assert forall|i: int| 0 <= i < v@.len() implies same_generic(#[trigger] v@[i], x@[i]) by {
            assert(same_generic(v@[i], w@[i]));
            assert(same_generic(w@[i], x@[i]));
            lemma_same_generic_trans(v@[i], w@[i], x@[i]);
        }
    }
}

/// Copies name the same symbol at the root.
proof fn lemma_same_generic_sym_kind(a: Generic, b: Generic)
    requires
        same_generic(a, b),
    ensures
        (a.kind matches GenericKind::Sym(u, _) && u.0 == SymbolId::UNIT)
            == (b.kind matches GenericKind::Sym(u, _) && u.0 == SymbolId::UNIT),
{
}

/// The rank of `t` under the variable ranks `rv` and the generic list ranks `rg`.
pub open spec fn rank_in(t: Sym, rv: Seq<nat>, rg: Seq<nat>) -> nat {
    match t {
        Sym::Ty(_, g) => rg[g.0 as int],
        Sym::Var(v) => rv[v.0 as int],
    }
}

impl SymbolMap {
    /// `t` names a generic list or a variable of this map.
    pub open spec fn sym_ok(&self, t: Sym) -> bool {
        match t {
            Sym::Ty(_, g) => g.0 < self.gens@.len(),
            Sym::Var(v) => v.0 < self.vars@.len(),
        }
    }

    /// The type in entry `i` of generic list `g`.
    pub open spec fn gen_at(&self, g: int, i: int) -> Sym {
        self.gens@[g]@[i].1
    }

    /// `r` ranks the variables (`r.0`) and the generic lists (`r.1`) so that
    /// what a variable stands for, and each type in a generic list, names
    /// something of this map and ranks lower.
    pub open spec fn ranked_by(&self, r: (Seq<nat>, Seq<nat>)) -> bool {
        &&& r.0.len() == self.vars@.len()
        &&& r.1.len() == self.gens@.len()
        &&& forall|v: int| 0 <= v < self.vars@.len() ==> match #[trigger] self.vars@[v].sub {
            VarSub::Concrete(t) => self.sym_ok(t) && rank_in(t, r.0, r.1) < r.0[v],
            _ => true,
        }
        &&& forall|g: int, i: int| 0 <= g < self.gens@.len() && 0 <= i < self.gens@[g]@.len() ==>
            self.sym_ok(#[trigger] self.gen_at(g, i)) && rank_in(self.gen_at(g, i), r.0, r.1) < r.1[g]
    }

    /// No type of this map contains itself, through the variables it is
    /// bound to or through its generic arguments.
    pub open spec fn acyclic(&self) -> bool {
        exists|r: (Seq<nat>, Seq<nat>)| self.ranked_by(r)
    }

    /// Some ranking of an acyclic map.
    pub open spec fn ranks(&self) -> (Seq<nat>, Seq<nat>) {
        choose|r: (Seq<nat>, Seq<nat>)| self.ranked_by(r)
    }

    pub open spec fn rank(&self, t: Sym) -> nat {
        rank_in(t, self.ranks().0, self.ranks().1)
    }

    /// The variable `v` is `t`, or occurs in what `t` is bound to or in one
    /// of `t`'s generic arguments.
    pub open spec fn occurs(&self, v: VarId, t: Sym) -> bool
        decreases self.rank(t), 1nat, 0nat
        when self.acyclic() && self.sym_ok(t)
    {
        match t {
            Sym::Ty(_, g) => self.occurs_list(v, g.0 as int, self.gens@[g.0 as int]@.len()),
            Sym::Var(w) => w == v || match self.vars@[w.0 as int].sub {
                VarSub::Concrete(s) => self.occurs(v, s),
                _ => false,
            },
        }
    }

    /// The variable `v` occurs in one of the first `n` types of generic list `g`.
    pub open spec fn occurs_list(&self, v: VarId, g: int, n: nat) -> bool
        decreases self.ranks().1[g], 0nat, n
        when self.acyclic() && 0 <= g < self.gens@.len() && n <= self.gens@[g]@.len()
    {
        if n == 0 {
            false
        } else {
            self.occurs_list(v, g, (n - 1) as nat) || self.occurs(v, self.gen_at(g, n - 1))
        }
    }

    /// Once found among the first entries of a list, a variable stays found
    /// among more of them.
    pub proof fn lemma_occurs_list_grow(&self, v: VarId, g: int, n: nat, m: nat)
        requires
            self.acyclic(),
            0 <= g < self.gens@.len(),
            n <= m <= self.gens@[g]@.len(),
            self.occurs_list(v, g, n),
        ensures
            self.occurs_list(v, g, m),
        decreases m,
    {
        if m > n {
            self.lemma_occurs_list_grow(v, g, n, (m - 1) as nat);
        }
    }
}

impl VarId {
    /// Whether this variable occurs in `ty`: it is `ty`, or occurs in what
    /// `ty` is bound to, or in one of `ty`'s generic arguments.
    pub fn occurs_in(self, map: &SymbolMap, ty: Sym) -> (r: bool)
        requires
            map.acyclic(),
            map.sym_ok(ty),
        ensures
            r == map.occurs(self, ty),
        decreases map.rank(ty), 1nat, 0nat,
    {
        proof {
            assert(map.ranked_by(map.ranks()));
        }
        match ty {
            Sym::Ty(s, gens) => {
                let list = &map.gens[gens.0 as usize];
                let mut i: usize = 0;
                while i < list.len()
                    invariant
                        0 <= i <= list@.len(),
                        map.acyclic(),
                        map.ranked_by(map.ranks()),
                        ty == Sym::Ty(s, gens),
                        gens.0 < map.gens@.len(),
                        *list == map.gens@[gens.0 as int],
                        !map.occurs_list(self, gens.0 as int, i as nat),
                    decreases list@.len() - i,
                {
                    let e = list[i].1;
                    proof {
                        assert(e == map.gen_at(gens.0 as int, i as int));
                    }
                    if self.occurs_in(map, e) {
                        proof {
                            assert(map.occurs_list(self, gens.0 as int, (i + 1) as nat));
                            map.lemma_occurs_list_grow(self, gens.0 as int, (i + 1) as nat, list@.len() as nat);
                        }
                        return true;
                    }
                    i = i + 1;
                }
                false
            },
            Sym::Var(v) => {
                if self == v {
                    return true;
                }
                match map.vars[v.0 as usize].sub {
                    VarSub::Concrete(t) => self.occurs_in(map, t),
                    _ => false,
                }
            },
        }
    }
}

impl SymbolMap {
    /// `m2` keeps what this map holds: the same variables, and the same
    /// generic lists first, possibly followed by new ones.
    pub open spec fn grows_to(&self, m2: SymbolMap) -> bool {
        &&& m2.vars@ == self.vars@
        &&& self.gens@.len() <= m2.gens@.len()
        &&& forall|i: int| 0 <= i < self.gens@.len() ==> #[trigger] m2.gens@[i] == self.gens@[i]
    }

    /// How many generic lists instantiating `t` from depth `depth` adds, or
    /// `None` when it would follow a chain of bound variables to depth 100.
    pub open spec fn inst_cost(&self, t: Sym, depth: nat) -> Option<nat>
        decreases self.rank(t), 1nat, 0nat
        when self.acyclic() && self.sym_ok(t)
    {
        if depth >= 100 {
            None
        } else {
            match t {
                Sym::Ty(_, g) => {
                    let n = self.gens@[g.0 as int]@.len();
                    match self.inst_cost_list(g.0 as int, n) {
                        Some(k) => Some(if n > 0 { k + 1 } else { k }),
                        None => None,
                    }
                },
                Sym::Var(v) => match self.vars@[v.0 as int].sub {
                    VarSub::Concrete(s) => self.inst_cost(s, depth + 1),
                    _ => Some(0),
                },
            }
        }
    }

    /// What instantiating the first `n` types of generic list `g` adds.
    pub open spec fn inst_cost_list(&self, g: int, n: nat) -> Option<nat>
        decreases self.ranks().1[g], 0nat, n
        when self.acyclic() && 0 <= g < self.gens@.len() && n <= self.gens@[g]@.len()
    {
        if n == 0 {
            Some(0)
        } else {
            match (self.inst_cost_list(g, (n - 1) as nat), self.inst_cost(self.gen_at(g, n - 1), 0)) {
                (Some(a), Some(b)) => Some(a + b),
                _ => None,
            }
        }
    }

    /// `r` is `t` with each bound variable replaced, all the way down, by
    /// what it stands for. A generic list on the way is replaced by a list
    /// of the same parameters with each type instantiated, an empty one by
    /// the empty list.
    pub open spec fn instantiated(&self, r: Sym, t: Sym) -> bool
        decreases self.rank(t), 1nat, 0nat
        when self.acyclic() && self.sym_ok(t)
    {
        match t {
            Sym::Ty(s, g) => {
                let n = self.gens@[g.0 as int]@.len();
                if n == 0 {
                    r == Sym::Ty(s, GenListId(GenListId::EMPTY))
                } else {
                    &&& r matches Sym::Ty(s2, g2)
                    &&& s2 == s
                    &&& g2.0 < self.gens@.len()
                    &&& self.gens@[g2.0 as int]@.len() == n
                    &&& self.inst_list(g2.0 as int, g.0 as int, n)
                }
            },
            Sym::Var(v) => match self.vars@[v.0 as int].sub {
                VarSub::Concrete(s) => self.instantiated(r, s),
                _ => r == t,
            },
        }
    }

    /// The first `n` entries of list `g2` have the parameters of those of
    /// list `g`, and their types instantiated.
    pub open spec fn inst_list(&self, g2: int, g: int, n: nat) -> bool
        decreases self.ranks().1[g], 0nat, n
        when self.acyclic() && 0 <= g < self.gens@.len() && n <= self.gens@[g]@.len()
    {
        n == 0 || {
            &&& self.inst_list(g2, g, (n - 1) as nat)
            &&& self.gens@[g2]@[n - 1].0.name == self.gens@[g]@[n - 1].0.name
            &&& self.gens@[g2]@[n - 1].0.bounds@ == self.gens@[g]@[n - 1].0.bounds@
            &&& self.instantiated(self.gen_at(g2, n - 1), self.gen_at(g, n - 1))
        }
    }
}

/// A map ranked by some ranking is acyclic.
pub(crate) proof fn lemma_acyclic(m: SymbolMap, r: (Seq<nat>, Seq<nat>))
    requires
        m.ranked_by(r),
    ensures
        m.acyclic(),
        m.ranked_by(m.ranks()),
{
}

/// What instantiating a type costs is the same in a map that keeps what
/// the first one holds.
pub(crate) proof fn lemma_cost_persists(m1: SymbolMap, m2: SymbolMap, t: Sym, d: nat)
    requires
        m1.acyclic(),
        m2.acyclic(),
        m1.grows_to(m2),
        m1.sym_ok(t),
    ensures
        m2.sym_ok(t),
        m2.inst_cost(t, d) == m1.inst_cost(t, d),
    decreases m1.rank(t), 1nat, 0nat,
{
    assert(m1.ranked_by(m1.ranks()));
    assert(m2.ranked_by(m2.ranks()));
    if d < 100 {
        match t {
            Sym::Ty(_, g) => {
                assert(m2.gens@[g.0 as int] == m1.gens@[g.0 as int]);
                lemma_cost_list_persists(m1, m2, g.0 as int, m1.gens@[g.0 as int]@.len());
            },
            Sym::Var(v) => {
                assert(m2.vars@[v.0 as int] == m1.vars@[v.0 as int]);
                if let VarSub::Concrete(s) = m1.vars@[v.0 as int].sub {
                    lemma_cost_persists(m1, m2, s, d + 1);
                }
            },
        }
    }
}

pub(crate) proof fn lemma_cost_list_persists(m1: SymbolMap, m2: SymbolMap, g: int, n: nat)
    requires
        m1.acyclic(),
        m2.acyclic(),
        m1.grows_to(m2),
        0 <= g < m1.gens@.len(),
        n <= m1.gens@[g]@.len(),
    ensures
        m2.inst_cost_list(g, n) == m1.inst_cost_list(g, n),
    decreases m1.ranks().1[g], 0nat, n,
{
    assert(m1.ranked_by(m1.ranks()));
    assert(m2.gens@[g] == m1.gens@[g]);
    if n > 0 {
        lemma_cost_list_persists(m1, m2, g, (n - 1) as nat);
        let e = m1.gen_at(g, n - 1);
        assert(m2.gen_at(g, n - 1) == e);
        lemma_cost_persists(m1, m2, e, 0);
    }
}

/// An instantiation stays one in a map that keeps what the first one holds.
pub(crate) proof fn lemma_inst_persists(m1: SymbolMap, m2: SymbolMap, r: Sym, t: Sym)
    requires
        m1.acyclic(),
        m2.acyclic(),
        m1.grows_to(m2),
        m1.sym_ok(t),
        m1.instantiated(r, t),
    ensures
        m2.instantiated(r, t),
    decreases m1.rank(t), 1nat, 0nat,
{
    assert(m1.ranked_by(m1.ranks()));
    match t {
        Sym::Ty(_, g) => {
            assert(m2.gens@[g.0 as int] == m1.gens@[g.0 as int]);
            let n = m1.gens@[g.0 as int]@.len();
            if n > 0 {
                let g2 = r->Ty_1;
                assert(m2.gens@[g2.0 as int] == m1.gens@[g2.0 as int]);
                lemma_inst_list_persists(m1, m2, g2.0 as int, g.0 as int, n);
            }
        },
        Sym::Var(v) => {
            assert(m2.vars@[v.0 as int] == m1.vars@[v.0 as int]);
            if let VarSub::Concrete(s) = m1.vars@[v.0 as int].sub {
                lemma_inst_persists(m1, m2, r, s);
            }
        },
    }
}

pub(crate) proof fn lemma_inst_list_persists(m1: SymbolMap, m2: SymbolMap, g2: int, g: int, n: nat)
    requires
        m1.acyclic(),
        m2.acyclic(),
        m1.grows_to(m2),
        0 <= g < m1.gens@.len(),
        0 <= g2 < m1.gens@.len(),
        n <= m1.gens@[g]@.len(),
        m1.inst_list(g2, g, n),
    ensures
        m2.inst_list(g2, g, n),
    decreases m1.ranks().1[g], 0nat, n,
{
    assert(m1.ranked_by(m1.ranks()));
    assert(m2.gens@[g] == m1.gens@[g]);
    assert(m2.gens@[g2] == m1.gens@[g2]);
    if n > 0 {
        lemma_inst_list_persists(m1, m2, g2, g, (n - 1) as nat);
        let e = m1.gen_at(g, n - 1);
        assert(m2.gen_at(g, n - 1) == e);
        assert(m2.gen_at(g2, n - 1) == m1.gen_at(g2, n - 1));
        lemma_inst_persists(m1, m2, m1.gen_at(g2, n - 1), e);
    }
}

/// What the first entries of a list cost is known, and no more than what
/// more of them cost.
pub(crate) proof fn lemma_cost_list_prefix(m: SymbolMap, g: int, i: nat, n: nat)
    requires
        m.acyclic(),
        0 <= g < m.gens@.len(),
        i <= n <= m.gens@[g]@.len(),
        m.inst_cost_list(g, n) is Some,
    ensures
        m.inst_cost_list(g, i) is Some,
        m.inst_cost_list(g, i)->Some_0 <= m.inst_cost_list(g, n)->Some_0,
    decreases n,
{
    if i < n {
        lemma_cost_list_prefix(m, g, i, (n - 1) as nat);
    }
}

/// A list whose first `n` entries each have the parameter of and
/// instantiate the entry of list `g` is an instantiation of its first `n`.
pub(crate) proof fn lemma_inst_list_from(m: SymbolMap, g2: int, g: int, n: nat)
    requires
        m.acyclic(),
        0 <= g < m.gens@.len(),
        0 <= g2 < m.gens@.len(),
        n <= m.gens@[g]@.len(),
        n <= m.gens@[g2]@.len(),
        forall|j: int| 0 <= j < n ==> {
            &&& (#[trigger] m.gens@[g2]@[j]).0.name == m.gens@[g]@[j].0.name
            &&& m.gens@[g2]@[j].0.bounds@ == m.gens@[g]@[j].0.bounds@
            &&& m.instantiated(m.gen_at(g2, j), m.gen_at(g, j))
        },
    ensures
        m.inst_list(g2, g, n),
    decreases n,
{
    if n > 0 {
        lemma_inst_list_from(m, g2, g, (n - 1) as nat);
        assert(m.gens@[g2]@[n - 1] == m.gens@[g2]@[n - 1]);
    }
}

/// `r` is a copy of the `impl` entry `e`: its namespace, type pattern and
/// generic parameters.
pub open spec fn copies_impl(r: TraitImplementation, e: (NamespaceId, Generic, Vec<BoundedGeneric>)) -> bool {
    &&& r matches TraitImplementation::Explicit(ns, g, gs)
    &&& ns == e.0
    &&& same_generic(e.1, g)
    &&& params(gs@) == params(e.2@)
}

impl SymbolMap {
    /// The traits that the symbol `sym` implements explicitly, each with its
    /// `impl`, to be read or filled in.
    pub fn traits(&mut self, sym: SymbolId) -> (r: &mut HashMap<u32, (NamespaceId, Generic, Vec<BoundedGeneric>)>)
        requires
            sym.0 < old(self).syms@.len(),
        ensures
            *r == old(self).syms@[sym.0 as int].2,
            final(self).syms@ == old(self).syms@.update(sym.0 as int,
                (old(self).syms@[sym.0 as int].0, old(self).syms@[sym.0 as int].1, *final(r))),
            final(self).gens == old(self).gens,
            final(self).vars == old(self).vars,
            final(self).closures == old(self).closures,
    {
        &mut self.syms[sym.0 as usize].2
    }

    /// How the type `ty` implements the trait `trait_id`: by the `impl`
    /// recorded for the symbol `ty` stands for, else by the trait's
    /// synthesis. `None` when `ty` stands for no symbol yet, or when there is
    /// neither an `impl` nor a synthesis.
    pub fn trait_implementation(&self, ty: Sym, trait_id: SymbolId) -> (r: Option<TraitImplementation>)
        requires
            self.wf(),
            ty matches Sym::Var(v) ==> v.0 < self.vars@.len(),
            self.shallow(ty) matches Sym::Ty(s, _) ==> s.0 < self.syms@.len(),
            trait_id.0 < self.syms@.len(),
            self.shallow(ty) matches Sym::Ty(s, _) && !self.syms@[s.0 as int].2@.contains_key(trait_id.0)
                ==> self.syms@[trait_id.0 as int].0 is Ok,
        ensures
            match self.shallow(ty) {
                Sym::Var(_) => r is None,
                Sym::Ty(s, _) => if self.syms@[s.0 as int].2@.contains_key(trait_id.0) {
                    r matches Some(i) && copies_impl(i, self.syms@[s.0 as int].2@[trait_id.0])
                } else {
                    match self.syms@[trait_id.0 as int].0->Ok_0.kind {
                        SymbolKind::Trait(t) => if t.synthesis == TraitSynthesis::Absent {
                            r is None
                        } else {
                            r matches Some(TraitImplementation::Synthesized(x)) && x == t.synthesis
                        },
                        _ => r is None,
                    }
                },
            },
    {
        let sym = match ty.sym(self) {
            Ok(s) => s,
            Err(_) => return None,
        };
        match self.syms[sym.0 as usize].2.get(&trait_id.0) {
            Some(e) => {
                let g = e.1.duplicate();
                let gs = copy_params(&e.2);
                return Some(TraitImplementation::Explicit(e.0, g, gs));
            },
            None => {},
        }
        match &self.sym(trait_id).kind {
            SymbolKind::Trait(t) => match t.synthesis {
                TraitSynthesis::Absent => None,
                synthesis => Some(TraitImplementation::Synthesized(synthesis)),
            },
            _ => None,
        }
    }
}

impl SymbolMap {
    /// The generic lists.
    pub fn gens(&self) -> (r: &Vec<Vec<(BoundedGeneric, Sym)>>)
        ensures
            *r == self.gens,
    {
        &self.gens
    }

    /// The inference variables.
    pub fn vars(&self) -> (r: &Vec<Var>)
        ensures
            *r == self.vars,
    {
        &self.vars
    }

    /// The inference variables, to be updated.
    pub fn vars_mut(&mut self) -> (r: &mut Vec<Var>)
        ensures
            *r == old(self).vars,
            final(self).vars == *final(r),
            final(self).syms == old(self).syms,
            final(self).gens == old(self).gens,
            final(self).closures == old(self).closures,
    {
        &mut self.vars
    }
}

} // verus!
