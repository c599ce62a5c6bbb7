use std::collections::HashMap;
use vstd::prelude::*;

use crate::ids::{NamespaceId, SourceRange, StringIndex};
use crate::namespace::{NamespaceMap, SymbolEntry, add_all};
use crate::syms::containers::{Container, ContainerKind};
use crate::syms::func::{FunctionArgument, FunctionKind, FunctionTy, };
use crate::syms::sym_map::{
    BoundedGeneric, GenListId, Generic, GenericKind, SymbolId, SymbolMap, is_variant_fn, params,
};
use crate::syms::ty::Sym;
use crate::syms::{Symbol, SymbolKind, Trait, TraitSynthesis};

verus! {

/// The interned names under which `SymbolMap::new` registers the builtin
/// symbols, their parameters, fields, arguments and variants.
#[derive(Clone, Copy, Debug)]
pub struct BuiltinNames {
    pub unit: StringIndex,
    pub int64: StringIndex,
    pub float64: StringIndex,
    pub boolean: StringIndex,
    pub false_variant: StringIndex,
    pub true_variant: StringIndex,
    pub err: StringIndex,
    pub never: StringIndex,
    pub ptr: StringIndex,
    pub t: StringIndex,
    pub a: StringIndex,
    pub range: StringIndex,
    pub min: StringIndex,
    pub max: StringIndex,
    pub option: StringIndex,
    pub some: StringIndex,
    pub none: StringIndex,
    pub result: StringIndex,
    pub ok: StringIndex,
    pub string: StringIndex,
    pub byte: StringIndex,
    pub value: StringIndex,
    pub list: StringIndex,
    pub type_id: StringIndex,
    pub size_of: StringIndex,
    pub eq_trait: StringIndex,
    pub eq_func: StringIndex,
    pub self_value: StringIndex,
    pub self_ty: StringIndex,
    pub rc: StringIndex,
    pub builtin_rc: StringIndex,
    pub rc_get: StringIndex,
    pub rc_set: StringIndex,
    pub ptr_alloc: StringIndex,
    pub ptr_free: StringIndex,
    pub ptr_read: StringIndex,
    pub ptr_write: StringIndex,
    pub ptr_write_uninit: StringIndex,
    pub ptr_null: StringIndex,
    pub ptr_offset: StringIndex,
    pub ptr_cast: StringIndex,
    pub destroy_trait: StringIndex,
    pub destroy_func: StringIndex,
    pub ptr_drop: StringIndex,
    pub list_concat: StringIndex,
    pub invalid_ident: StringIndex,
    pub tuple: StringIndex,
    /// The names of a tuple's first and second fields.
    pub field0: StringIndex,
    pub field1: StringIndex,
    pub list_slice: StringIndex,
    pub list_len: StringIndex,
    /// The names of the variant constructors: each enum's name joined with
    /// the variant's.
    pub bool_false: StringIndex,
    pub bool_true: StringIndex,
    pub option_some: StringIndex,
    pub option_none: StringIndex,
    pub result_ok: StringIndex,
    pub result_err: StringIndex,
}


/// An entry of the symbol table.
pub type SymEntry = (Result<Symbol, usize>, NamespaceId, HashMap<u32, (NamespaceId, Generic, Vec<BoundedGeneric>)>);

pub open spec fn zero() -> SourceRange {
    SourceRange { start: 0, end: 0 }
}

/// `g` is the parameter `name`, without bounds, at the empty range.
pub open spec fn is_param_g(g: Generic, name: StringIndex) -> bool {
    &&& g.range == zero()
    &&& g.err is None
    &&& g.kind is Generic
    &&& g.kind->Generic_0.name == name
    &&& g.kind->Generic_0.bounds@.len() == 0
}

/// `g` is the symbol `id` applied to `n` arguments, at the empty range.
pub open spec fn is_app(g: Generic, id: u32, n: nat) -> bool {
    &&& g.range == zero()
    &&& g.err is None
    &&& g.kind is Sym
    &&& g.kind->Sym_0 == SymbolId(id)
    &&& g.kind->Sym_1@.len() == n
}

/// The `i`th argument of the applied symbol `g`.
pub open spec fn arg_of(g: Generic, i: int) -> Generic {
    g.kind->Sym_1@[i]
}

/// `g` is the symbol `id` applied to the parameter `name`.
pub open spec fn is_app_param(g: Generic, id: u32, name: StringIndex) -> bool {
    is_app(g, id, 1) && is_param_g(arg_of(g, 0), name)
}

/// The parameter list `gens`, each without bounds.
pub open spec fn plain_params(gens: Seq<StringIndex>) -> Seq<(StringIndex, Seq<SymbolId>)> {
    gens.map_values(|n: StringIndex| (n, Seq::<SymbolId>::empty()))
}

/// A defined container named `name` with parameters `gens`, of `kind`,
/// whose fields are named `fields`.
pub open spec fn container_shape(e: SymEntry, name: StringIndex, gens: Seq<StringIndex>, kind: ContainerKind,
                                 fields: Seq<StringIndex>) -> bool {
    &&& e.0 is Ok
    &&& e.0->Ok_0.name == name
    &&& params(e.0->Ok_0.generics@) == plain_params(gens)
    &&& e.0->Ok_0.kind is Container
    &&& e.0->Ok_0.kind->Container_0.kind == kind
    &&& e.0->Ok_0.kind->Container_0.fields@.len() == fields.len()
    &&& forall|i: int| 0 <= i < fields.len() ==> (#[trigger] e.0->Ok_0.kind->Container_0.fields@[i]).0 == fields[i]
}

/// The type of the `i`th field of a container entry.
pub open spec fn field_of(e: SymEntry, i: int) -> Generic {
    e.0->Ok_0.kind->Container_0.fields@[i].1
}

/// A defined opaque type named `name` with parameters `gens`.
pub open spec fn opaque_shape(e: SymEntry, name: StringIndex, gens: Seq<StringIndex>) -> bool {
    &&& e.0 is Ok
    &&& e.0->Ok_0.name == name
    &&& params(e.0->Ok_0.generics@) == plain_params(gens)
    &&& e.0->Ok_0.kind is Opaque
}

/// A function's signature with arguments named `args`, of `kind`, with no
/// declaration, and not generated yet.
pub open spec fn sig_shape(f: FunctionTy, args: Seq<StringIndex>, kind: FunctionKind) -> bool {
    &&& f.args@.len() == args.len()
    &&& forall|i: int| 0 <= i < args.len() ==> (#[trigger] f.args@[i]).name == args[i]
    &&& f.kind == kind
    &&& f.decl is None
    &&& !f.cached
}

/// A defined function named `name` with parameters `gens`.
pub open spec fn fn_shape(e: SymEntry, name: StringIndex, gens: Seq<StringIndex>, args: Seq<StringIndex>, kind: FunctionKind) -> bool {
    &&& e.0 is Ok
    &&& e.0->Ok_0.name == name
    &&& params(e.0->Ok_0.generics@) == plain_params(gens)
    &&& e.0->Ok_0.kind is Function
    &&& sig_shape(e.0->Ok_0.kind->Function_0, args, kind)
}

/// The type of the `i`th argument of a function entry.
pub open spec fn fn_arg(e: SymEntry, i: int) -> Generic {
    e.0->Ok_0.kind->Function_0.args@[i].symbol
}

/// The return type of a function entry.
pub open spec fn fn_ret(e: SymEntry) -> Generic {
    e.0->Ok_0.kind->Function_0.ret
}

/// A defined trait named `name`, without parameters, with one function
/// named `func`, and synthesised as `synthesis`.
pub open spec fn trait_shape(e: SymEntry, name: StringIndex, func: StringIndex, synthesis: TraitSynthesis) -> bool {
    &&& e.0 is Ok
    &&& e.0->Ok_0.name == name
    &&& e.0->Ok_0.generics@.len() == 0
    &&& e.0->Ok_0.kind is Trait
    &&& e.0->Ok_0.kind->Trait_0.funcs@.len() == 1
    &&& e.0->Ok_0.kind->Trait_0.funcs@[0].0 == func
    &&& e.0->Ok_0.kind->Trait_0.synthesis == synthesis
}

/// The function of a trait entry.
pub open spec fn trait_fn(e: SymEntry) -> FunctionTy {
    e.0->Ok_0.kind->Trait_0.funcs@[0].1
}

/// The enum whose variant constructor symbol `k` is, if it is one.
pub open spec fn variant_of(k: int) -> Option<int> {
    if k == 4 || k == 5 {
        Some(SymbolId::BOOL as int)
    } else if k == 11 || k == 12 {
        Some(SymbolId::OPTION as int)
    } else if k == 14 || k == 15 {
        Some(SymbolId::RESULT as int)
    } else {
        None
    }
}

/// The first `upto` symbols of `m` are defined and each has the namespace
/// numbered `base` plus its own number, named after it (the tuple's being
/// named `invalid`); a variant constructor's namespace is the child of its
/// enum's, every other one has no parent, and apart from the enums' they
/// are empty.
pub open spec fn ns_paired(m: SymbolMap, ns: NamespaceMap, base: nat, upto: nat, invalid: StringIndex) -> bool {
    &&& m.syms@.len() == upto
    &&& ns.map@.len() == base + upto
    &&& forall|k: int| 0 <= k < upto ==> {
        &&& (#[trigger] m.syms@[k]).0 is Ok
        &&& m.syms@[k].1.0 == base + k
        &&& ns.map@[base + k].path == (if k == SymbolId::LIST_SLICE_PAIR { invalid } else { m.syms@[k].0->Ok_0.name })
        &&& ns.map@[base + k].parent == (match variant_of(k) {
            Some(e) => Some(NamespaceId((base + e) as u32)),
            None => None,
        })
        &&& (k != SymbolId::BOOL && k != SymbolId::OPTION && k != SymbolId::RESULT ==>
            ns.map@[base + k].symbols@ == Map::<u32, SymbolEntry>::empty())
    }
}

/// The entries that an enum's namespace gets for its two variants.
pub open spec fn pair_entries(v0: StringIndex, v1: StringIndex, first: nat) -> Map<u32, SymbolEntry> {
    add_all(Map::<u32, SymbolEntry>::empty(), zero(), seq![v0, v1], first)
}

fn bounded(name: StringIndex) -> (r: BoundedGeneric)
    ensures
        r.name == name,
        r.bounds@ == Seq::<SymbolId>::empty(),
{
    let r = BoundedGeneric::new(name, Vec::new());
    proof {
        assert(r.bounds@ =~= Seq::<SymbolId>::empty());
    }
    r
}

fn param_g(name: StringIndex) -> (r: Generic)
    ensures
        is_param_g(r, name),
{
    Generic::new(SourceRange::zero(), GenericKind::Generic(bounded(name)), None)
}

fn bare_g(id: u32) -> (r: Generic)
    ensures
        is_app(r, id, 0),
{
    Generic::new(SourceRange::zero(), GenericKind::Sym(SymbolId(id), Vec::new()), None)
}

fn app1_g(id: u32, a: Generic) -> (r: Generic)
    ensures
        is_app(r, id, 1),
        arg_of(r, 0) == a,
{
    Generic::new(SourceRange::zero(), GenericKind::Sym(SymbolId(id), vec![a]), None)
}

fn app2_g(id: u32, a: Generic, b: Generic) -> (r: Generic)
    ensures
        is_app(r, id, 2),
        arg_of(r, 0) == a,
        arg_of(r, 1) == b,
{
    Generic::new(SourceRange::zero(), GenericKind::Sym(SymbolId(id), vec![a, b]), None)
}

fn params_of(n0: StringIndex) -> (r: Vec<BoundedGeneric>)
    ensures
        r@.len() == 1,
        params(r@) == plain_params(seq![n0]),
{
    let v = vec![bounded(n0)];
    proof {
        assert(params(v@) =~= plain_params(seq![n0]));
    }
    v
}

fn params_of2(n0: StringIndex, n1: StringIndex) -> (r: Vec<BoundedGeneric>)
    ensures
        r@.len() == 2,
        params(r@) == plain_params(seq![n0, n1]),
{
    let v = vec![bounded(n0), bounded(n1)];
    proof {
        assert(params(v@) =~= plain_params(seq![n0, n1]));
    }
    v
}

fn no_params() -> (r: Vec<BoundedGeneric>)
    ensures
        params(r@) == plain_params(seq![]),
        r@.len() == 0,
{
    let v: Vec<BoundedGeneric> = Vec::new();
    proof {
        assert(params(v@) =~= plain_params(seq![]));
    }
    v
}

impl SymbolMap {
    /// Registers `sym` under a new id with a namespace of its own, named
    /// `path`, without a parent.
    fn add_builtin(&mut self, ns_map: &mut NamespaceMap, path: StringIndex, sym: Symbol) -> (r: SymbolId)
        requires
            old(ns_map).wf(),
            old(ns_map).map@.len() < u32::MAX,
            old(self).syms@.len() < u32::MAX,
        ensures
            final(ns_map).wf(),
            r.0 == old(self).syms@.len(),
            final(self).syms@.len() == old(self).syms@.len() + 1,
            forall|i: int| 0 <= i < old(self).syms@.len() ==> #[trigger] final(self).syms@[i] == old(self).syms@[i],
            final(self).syms@.last().0 == Ok::<Symbol, usize>(sym),
            final(self).syms@.last().1.0 == old(ns_map).map@.len(),
            final(self).gens == old(self).gens,
            final(self).vars == old(self).vars,
            final(self).closures == old(self).closures,
            final(ns_map).map@.len() == old(ns_map).map@.len() + 1,
            forall|i: int| 0 <= i < old(ns_map).map@.len() ==> #[trigger] final(ns_map).map@[i] == old(ns_map).map@[i],
            final(ns_map).map@.last().symbols@ == Map::<u32, SymbolEntry>::empty(),
            final(ns_map).map@.last().path == path,
            final(ns_map).map@.last().parent is None,
    {
        let pending = self.pending(ns_map, None, path, sym.generics.len());
        self.add_sym(pending, sym);
        pending
    }

    /// Registers a struct with no fields and no parameters under `name`.
    fn add_plain(&mut self, ns_map: &mut NamespaceMap, name: StringIndex) -> (r: SymbolId)
        requires
            old(ns_map).wf(),
            old(ns_map).map@.len() < u32::MAX,
            old(self).syms@.len() < u32::MAX,
        ensures
            final(ns_map).wf(),
            r.0 == old(self).syms@.len(),
            final(self).syms@.len() == old(self).syms@.len() + 1,
            forall|i: int| 0 <= i < old(self).syms@.len() ==> #[trigger] final(self).syms@[i] == old(self).syms@[i],
            container_shape(final(self).syms@.last(), name, seq![], ContainerKind::Struct, seq![]),
            final(self).syms@.last().1.0 == old(ns_map).map@.len(),
            final(self).gens == old(self).gens,
            final(self).vars == old(self).vars,
            final(self).closures == old(self).closures,
            final(ns_map).map@.len() == old(ns_map).map@.len() + 1,
            forall|i: int| 0 <= i < old(ns_map).map@.len() ==> #[trigger] final(ns_map).map@[i] == old(ns_map).map@[i],
            final(ns_map).map@.last().symbols@ == Map::<u32, SymbolEntry>::empty(),
            final(ns_map).map@.last().path == name,
            final(ns_map).map@.last().parent is None,
    {
        let kind = SymbolKind::Container(Container::new(Vec::new(), ContainerKind::Struct));
        let gens = no_params();
        self.add_builtin(ns_map, name, Symbol::new(name, gens, kind))
    }
}

impl SymbolMap {
    /// The symbol table with the builtin types, functions and traits
    /// registered under the ids of `SymbolId`, each with a namespace of its
    /// own, and the empty generic list; the enums `bool`, `Option` and
    /// `Result` come with one constructor function per variant, entered in
    /// the enum's namespace.
    #[verifier::rlimit(100)]
    #[verifier::spinoff_prover]
    pub fn new(ns_map: &mut NamespaceMap, names: &BuiltinNames) -> (r: SymbolMap)
        requires
            old(ns_map).wf(),
            old(ns_map).map@.len() + 40 < u32::MAX,
            names.false_variant != names.true_variant,
            names.some != names.none,
            names.ok != names.err,
        ensures
            r.wf(),
            final(ns_map).wf(),
            r.gens@.len() == 1,
            r.gens@[0]@.len() == 0,
            r.vars@.len() == 0,
            r.closures@.len() == 0,
            final(ns_map).map@.len() == old(ns_map).map@.len() + 40,
            forall|i: int| 0 <= i < old(ns_map).map@.len() ==> #[trigger] final(ns_map).map@[i] == old(ns_map).map@[i],
            ns_paired(r, *final(ns_map), old(ns_map).map@.len(), 40, names.invalid_ident),
            container_shape(r.syms@[0], names.unit, seq![], ContainerKind::Struct, seq![]),
            container_shape(r.syms@[1], names.int64, seq![], ContainerKind::Struct, seq![]),
            container_shape(r.syms@[2], names.float64, seq![], ContainerKind::Struct, seq![]),
            container_shape(r.syms@[6], names.err, seq![], ContainerKind::Struct, seq![]),
            container_shape(r.syms@[7], names.never, seq![], ContainerKind::Struct, seq![]),
            opaque_shape(r.syms@[8], names.ptr, seq![names.t]),
            container_shape(r.syms@[9], names.range, seq![], ContainerKind::Struct, seq![names.min, names.max]),
            is_app(field_of(r.syms@[9], 0), SymbolId::I64, 0),
            is_app(field_of(r.syms@[9], 1), SymbolId::I64, 0),
            container_shape(r.syms@[16], names.string, seq![], ContainerKind::Struct, seq![names.value]),
            is_app(field_of(r.syms@[16], 0), SymbolId::LIST, 1),
            is_app(arg_of(field_of(r.syms@[16], 0), 0), SymbolId::BYTE, 0),
            opaque_shape(r.syms@[17], names.list, seq![names.t]),
            fn_shape(r.syms@[18], names.type_id, seq![names.t], seq![], FunctionKind::TypeId),
            is_app(fn_ret(r.syms@[18]), SymbolId::I64, 0),
            fn_shape(r.syms@[19], names.size_of, seq![names.t], seq![], FunctionKind::SizeOf),
            is_app(fn_ret(r.syms@[19]), SymbolId::I64, 0),
            opaque_shape(r.syms@[21], names.rc, seq![names.t]),
            fn_shape(r.syms@[22], names.builtin_rc, seq![names.t], seq![names.value], FunctionKind::Rc),
            is_param_g(fn_arg(r.syms@[22], 0), names.t),
            is_app_param(fn_ret(r.syms@[22]), SymbolId::RC, names.t),
            fn_shape(r.syms@[23], names.rc_get, seq![names.t], seq![names.value], FunctionKind::RcGet),
            is_app_param(fn_arg(r.syms@[23], 0), SymbolId::RC, names.t),
            is_param_g(fn_ret(r.syms@[23]), names.t),
            fn_shape(r.syms@[24], names.rc_set, seq![names.t], seq![names.value, names.value], FunctionKind::RcSet),
            is_app_param(fn_arg(r.syms@[24], 0), SymbolId::RC, names.t),
            is_param_g(fn_arg(r.syms@[24], 1), names.t),
            is_app(fn_ret(r.syms@[24]), SymbolId::UNIT, 0),
            fn_shape(r.syms@[25], names.ptr_alloc, seq![names.t], seq![names.value], FunctionKind::PtrAlloc),
            is_app(fn_arg(r.syms@[25], 0), SymbolId::I64, 0),
            is_app_param(fn_ret(r.syms@[25]), SymbolId::PTR, names.t),
            fn_shape(r.syms@[26], names.ptr_free, seq![names.t], seq![names.value, names.value], FunctionKind::PtrFree),
            is_app_param(fn_arg(r.syms@[26], 0), SymbolId::PTR, names.t),
            is_app(fn_arg(r.syms@[26], 1), SymbolId::I64, 0),
            is_app(fn_ret(r.syms@[26]), SymbolId::UNIT, 0),
            fn_shape(r.syms@[27], names.ptr_read, seq![names.t], seq![names.value], FunctionKind::PtrRead),
            is_app_param(fn_arg(r.syms@[27], 0), SymbolId::PTR, names.t),
            is_param_g(fn_ret(r.syms@[27]), names.t),
            fn_shape(r.syms@[28], names.ptr_write, seq![names.t], seq![names.value, names.value], FunctionKind::PtrWrite),
            is_app_param(fn_arg(r.syms@[28], 0), SymbolId::PTR, names.t),
            is_param_g(fn_arg(r.syms@[28], 1), names.t),
            is_app(fn_ret(r.syms@[28]), SymbolId::UNIT, 0),
            fn_shape(r.syms@[29], names.ptr_write_uninit, seq![names.t], seq![names.value, names.value], FunctionKind::PtrWriteUninit),
            is_app_param(fn_arg(r.syms@[29], 0), SymbolId::PTR, names.t),
            is_param_g(fn_arg(r.syms@[29], 1), names.t),
            is_app(fn_ret(r.syms@[29]), SymbolId::UNIT, 0),
            fn_shape(r.syms@[30], names.ptr_null, seq![names.t], seq![], FunctionKind::PtrNull),
            is_app_param(fn_ret(r.syms@[30]), SymbolId::PTR, names.t),
            fn_shape(r.syms@[31], names.ptr_offset, seq![names.t], seq![names.value, names.value], FunctionKind::PtrOffset),
            is_app_param(fn_arg(r.syms@[31], 0), SymbolId::PTR, names.t),
            is_app(fn_arg(r.syms@[31], 1), SymbolId::I64, 0),
            is_app_param(fn_ret(r.syms@[31]), SymbolId::PTR, names.t),
            fn_shape(r.syms@[32], names.ptr_cast, seq![names.t, names.a], seq![names.value], FunctionKind::PtrCast),
            is_app_param(fn_arg(r.syms@[32], 0), SymbolId::PTR, names.t),
            is_app_param(fn_ret(r.syms@[32]), SymbolId::PTR, names.a),
            fn_shape(r.syms@[34], names.ptr_drop, seq![names.t], seq![names.value], FunctionKind::PtrDrop),
            is_app_param(fn_arg(r.syms@[34], 0), SymbolId::PTR, names.t),
            is_app(fn_ret(r.syms@[34]), SymbolId::UNIT, 0),
            fn_shape(r.syms@[35], names.list_concat, seq![names.t], seq![names.value, names.value], FunctionKind::ListConcat),
            is_app_param(fn_arg(r.syms@[35], 0), SymbolId::LIST, names.t),
            is_app_param(fn_arg(r.syms@[35], 1), SymbolId::LIST, names.t),
            is_app_param(fn_ret(r.syms@[35]), SymbolId::LIST, names.t),
            fn_shape(r.syms@[37], names.list_slice, seq![names.t], seq![names.value, names.value], FunctionKind::ListSlice),
            is_app_param(fn_arg(r.syms@[37], 0), SymbolId::LIST, names.t),
            is_app(fn_arg(r.syms@[37], 1), SymbolId::I64, 0),
            is_app(fn_ret(r.syms@[37]), SymbolId::OPTION, 1) && is_app(arg_of(fn_ret(r.syms@[37]), 0), SymbolId::LIST_SLICE_PAIR, 2) && is_app_param(arg_of(arg_of(fn_ret(r.syms@[37]), 0), 0), SymbolId::LIST, names.t) && is_app_param(arg_of(arg_of(fn_ret(r.syms@[37]), 0), 1), SymbolId::LIST, names.t),
            fn_shape(r.syms@[38], names.list_len, seq![names.t], seq![names.value], FunctionKind::ListLen),
            is_app_param(fn_arg(r.syms@[38], 0), SymbolId::LIST, names.t),
            is_app(fn_ret(r.syms@[38]), SymbolId::I64, 0),
            container_shape(r.syms@[39], names.byte, seq![], ContainerKind::Struct, seq![]),
            container_shape(r.syms@[3], names.boolean, seq![], ContainerKind::Enum, seq![names.false_variant, names.true_variant]),
            is_app(field_of(r.syms@[3], 0), SymbolId::UNIT, 0),
            is_app(field_of(r.syms@[3], 1), SymbolId::UNIT, 0),
            is_variant_fn(r.syms@[4].0->Ok_0, names.bool_false, r.syms@[3].0->Ok_0.generics@, names.value, field_of(r.syms@[3], 0), zero(), SymbolId(3), 0, None),
            is_variant_fn(r.syms@[5].0->Ok_0, names.bool_true, r.syms@[3].0->Ok_0.generics@, names.value, field_of(r.syms@[3], 1), zero(), SymbolId(3), 1, None),
            final(ns_map).map@[old(ns_map).map@.len() + 3int].symbols@ == pair_entries(names.false_variant, names.true_variant, 4),
            container_shape(r.syms@[10], names.option, seq![names.t], ContainerKind::Enum, seq![names.some, names.none]),
            is_param_g(field_of(r.syms@[10], 0), names.t),
            is_app(field_of(r.syms@[10], 1), SymbolId::UNIT, 0),
            is_variant_fn(r.syms@[11].0->Ok_0, names.option_some, r.syms@[10].0->Ok_0.generics@, names.value, field_of(r.syms@[10], 0), zero(), SymbolId(10), 0, None),
            is_variant_fn(r.syms@[12].0->Ok_0, names.option_none, r.syms@[10].0->Ok_0.generics@, names.value, field_of(r.syms@[10], 1), zero(), SymbolId(10), 1, None),
            final(ns_map).map@[old(ns_map).map@.len() + 10int].symbols@ == pair_entries(names.some, names.none, 11),
            container_shape(r.syms@[13], names.result, seq![names.t, names.a], ContainerKind::Enum, seq![names.ok, names.err]),
            is_param_g(field_of(r.syms@[13], 0), names.t),
            is_param_g(field_of(r.syms@[13], 1), names.a),
            is_variant_fn(r.syms@[14].0->Ok_0, names.result_ok, r.syms@[13].0->Ok_0.generics@, names.value, field_of(r.syms@[13], 0), zero(), SymbolId(13), 0, None),
            is_variant_fn(r.syms@[15].0->Ok_0, names.result_err, r.syms@[13].0->Ok_0.generics@, names.value, field_of(r.syms@[13], 1), zero(), SymbolId(13), 1, None),
            final(ns_map).map@[old(ns_map).map@.len() + 13int].symbols@ == pair_entries(names.ok, names.err, 14),
            trait_shape(r.syms@[20], names.eq_trait, names.eq_func, TraitSynthesis::Absent),
            sig_shape(trait_fn(r.syms@[20]), seq![names.self_value, names.value], FunctionKind::Trait),
            is_param_g(trait_fn(r.syms@[20]).args@[0].symbol, names.self_ty),
            is_param_g(trait_fn(r.syms@[20]).args@[1].symbol, names.self_ty),
            is_app(trait_fn(r.syms@[20]).ret, SymbolId::BOOL, 0),
            trait_shape(r.syms@[33], names.destroy_trait, names.destroy_func, TraitSynthesis::UniversalNoop),
            sig_shape(trait_fn(r.syms@[33]), seq![names.self_value], FunctionKind::Trait),
            is_param_g(trait_fn(r.syms@[33]).args@[0].symbol, names.self_ty),
            is_app(trait_fn(r.syms@[33]).ret, SymbolId::UNIT, 0),
            container_shape(r.syms@[36], names.tuple, seq![names.t, names.a], ContainerKind::Tuple, seq![names.field0, names.field1]),
            is_param_g(field_of(r.syms@[36], 0), names.t),
            is_param_g(field_of(r.syms@[36], 1), names.a),
    {
        let ghost base = ns_map.map@.len();
        let mut gens: Vec<Vec<(BoundedGeneric, Sym)>> = Vec::new();
        gens.push(Vec::new());
        let mut slf = SymbolMap { syms: Vec::new(), gens, vars: Vec::new(), closures: Vec::new() };
        proof {
            assert(ns_paired(slf, *ns_map, base, 0, names.invalid_ident));
        }
        slf.add_plain(ns_map, names.unit);
        proof { assert(ns_paired(slf, *ns_map, base, slf.syms@.len(), names.invalid_ident)); }
        slf.add_plain(ns_map, names.int64);
        proof { assert(ns_paired(slf, *ns_map, base, slf.syms@.len(), names.invalid_ident)); }
        slf.add_plain(ns_map, names.float64);
        proof { assert(ns_paired(slf, *ns_map, base, slf.syms@.len(), names.invalid_ident)); }
        // bool: 3
        let pending = slf.pending(ns_map, None, names.boolean, 0);
        let fields = vec![(names.false_variant, bare_g(SymbolId::UNIT)), (names.true_variant, bare_g(SymbolId::UNIT))];
        proof {
            assert(fields@.map_values(|m: (StringIndex, Generic)| m.0) =~= seq![names.false_variant, names.true_variant]);
            assert forall|i: int| 0 <= i < slf.syms@.len() implies (#[trigger] slf.syms@[i]).1.0 < ns_map.map@.len() by {}
        }
        let gens = no_params();
        let ghost gv = gens@;
        let ghost sb = slf;
        let ghost nb = *ns_map;
        slf.add_enum(pending, ns_map, SourceRange::zero(), names.boolean, fields, gens, None,
                     vec![names.bool_false, names.bool_true], names.value);
        proof {
            assert(slf.syms@[sb.syms@.len() + 0int].0 is Ok);
            assert(slf.syms@[sb.syms@.len() + 1int].0 is Ok);
            assert(ns_map.map@[nb.map@.len() + 0int].parent == Some(NamespaceId((base + 3) as u32)));
            assert(ns_map.map@[nb.map@.len() + 1int].parent == Some(NamespaceId((base + 3) as u32)));
            assert(ns_paired(slf, *ns_map, base, slf.syms@.len(), names.invalid_ident));
            lemma_variant_fn_params(slf.syms@[4].0->Ok_0, names.bool_false, gv, slf.syms@[3].0->Ok_0.generics@,
                                    names.value, field_of(slf.syms@[3], 0), zero(), SymbolId(3), 0, None);
            lemma_variant_fn_params(slf.syms@[5].0->Ok_0, names.bool_true, gv, slf.syms@[3].0->Ok_0.generics@,
                                    names.value, field_of(slf.syms@[3], 1), zero(), SymbolId(3), 1, None);
            assert(ns_map.map@[base + 3int].symbols@ == pair_entries(names.false_variant, names.true_variant, 4));
        }
        slf.add_plain(ns_map, names.err);
        proof { assert(ns_paired(slf, *ns_map, base, slf.syms@.len(), names.invalid_ident)); }
        slf.add_plain(ns_map, names.never);
        proof { assert(ns_paired(slf, *ns_map, base, slf.syms@.len(), names.invalid_ident)); }
        slf.add_builtin(ns_map, names.ptr, Symbol::new(names.ptr, params_of(names.t), SymbolKind::Opaque));
        proof { assert(ns_paired(slf, *ns_map, base, slf.syms@.len(), names.invalid_ident)); assert(opaque_shape(slf.syms@[8], names.ptr, seq![names.t])); }
        // range
        let fields = vec![(names.min, bare_g(SymbolId::I64)), (names.max, bare_g(SymbolId::I64))];
        let kind = SymbolKind::Container(Container::new(fields, ContainerKind::Struct));
        slf.add_builtin(ns_map, names.range, Symbol::new(names.range, no_params(), kind));
        proof {
            assert(ns_paired(slf, *ns_map, base, slf.syms@.len(), names.invalid_ident));
            assert(container_shape(slf.syms@[9], names.range, seq![], ContainerKind::Struct, seq![names.min, names.max]));
        }
        // option
        let pending = slf.pending(ns_map, None, names.option, 1);
        let fields = vec![(names.some, param_g(names.t)), (names.none, bare_g(SymbolId::UNIT))];
        proof {
            assert(fields@.map_values(|m: (StringIndex, Generic)| m.0) =~= seq![names.some, names.none]);
            assert forall|i: int| 0 <= i < slf.syms@.len() implies (#[trigger] slf.syms@[i]).1.0 < ns_map.map@.len() by {}
        }
        let gens = params_of(names.t);
        let ghost gv = gens@;
        let ghost sb = slf;
        let ghost nb = *ns_map;
        slf.add_enum(pending, ns_map, SourceRange::zero(), names.option, fields, gens, None,
                     vec![names.option_some, names.option_none], names.value);
        proof {
            assert(slf.syms@[sb.syms@.len() + 0int].0 is Ok);
            assert(slf.syms@[sb.syms@.len() + 1int].0 is Ok);
            assert(ns_map.map@[nb.map@.len() + 0int].parent == Some(NamespaceId((base + 10) as u32)));
            assert(ns_map.map@[nb.map@.len() + 1int].parent == Some(NamespaceId((base + 10) as u32)));
            assert(ns_paired(slf, *ns_map, base, slf.syms@.len(), names.invalid_ident));
            lemma_variant_fn_params(slf.syms@[11].0->Ok_0, names.option_some, gv, slf.syms@[10].0->Ok_0.generics@,
                                    names.value, field_of(slf.syms@[10], 0), zero(), SymbolId(10), 0, None);
            lemma_variant_fn_params(slf.syms@[12].0->Ok_0, names.option_none, gv, slf.syms@[10].0->Ok_0.generics@,
                                    names.value, field_of(slf.syms@[10], 1), zero(), SymbolId(10), 1, None);
            assert(ns_map.map@[base + 10int].symbols@ == pair_entries(names.some, names.none, 11));
        }
        // result
        let pending = slf.pending(ns_map, None, names.result, 2);
        let fields = vec![(names.ok, param_g(names.t)), (names.err, param_g(names.a))];
        proof {
            assert(fields@.map_values(|m: (StringIndex, Generic)| m.0) =~= seq![names.ok, names.err]);
            assert forall|i: int| 0 <= i < slf.syms@.len() implies (#[trigger] slf.syms@[i]).1.0 < ns_map.map@.len() by {}
        }
        let gens = params_of2(names.t, names.a);
        let ghost gv = gens@;
        let ghost sb = slf;
        let ghost nb = *ns_map;
        slf.add_enum(pending, ns_map, SourceRange::zero(), names.result, fields, gens, None,
                     vec![names.result_ok, names.result_err], names.value);
        proof {
            assert(slf.syms@[sb.syms@.len() + 0int].0 is Ok);
            assert(slf.syms@[sb.syms@.len() + 1int].0 is Ok);
            assert(ns_map.map@[nb.map@.len() + 0int].parent == Some(NamespaceId((base + 13) as u32)));
            assert(ns_map.map@[nb.map@.len() + 1int].parent == Some(NamespaceId((base + 13) as u32)));
            assert(ns_paired(slf, *ns_map, base, slf.syms@.len(), names.invalid_ident));
            lemma_variant_fn_params(slf.syms@[14].0->Ok_0, names.result_ok, gv, slf.syms@[13].0->Ok_0.generics@,
                                    names.value, field_of(slf.syms@[13], 0), zero(), SymbolId(13), 0, None);
            lemma_variant_fn_params(slf.syms@[15].0->Ok_0, names.result_err, gv, slf.syms@[13].0->Ok_0.generics@,
                                    names.value, field_of(slf.syms@[13], 1), zero(), SymbolId(13), 1, None);
            assert(ns_map.map@[base + 13int].symbols@ == pair_entries(names.ok, names.err, 14));
        }
        // str: a nominal wrapper around a list of bytes
        let fields = vec![(names.value, app1_g(SymbolId::LIST, bare_g(SymbolId::BYTE)))];
        let kind = SymbolKind::Container(Container::new(fields, ContainerKind::Struct));
        slf.add_builtin(ns_map, names.string, Symbol::new(names.string, no_params(), kind));
        proof {
            assert(ns_paired(slf, *ns_map, base, slf.syms@.len(), names.invalid_ident));
            assert(container_shape(slf.syms@[16], names.string, seq![], ContainerKind::Struct, seq![names.value]));
        }
        slf.add_builtin(ns_map, names.list, Symbol::new(names.list, params_of(names.t), SymbolKind::Opaque));
        proof { assert(ns_paired(slf, *ns_map, base, slf.syms@.len(), names.invalid_ident)); assert(opaque_shape(slf.syms@[17], names.list, seq![names.t])); }
        let f = FunctionTy::new(Vec::new(), bare_g(SymbolId::I64), FunctionKind::TypeId, None);
        slf.add_builtin(ns_map, names.type_id, Symbol::new(names.type_id, params_of(names.t), SymbolKind::Function(f)));
        proof {
            assert(ns_paired(slf, *ns_map, base, slf.syms@.len(), names.invalid_ident));
            assert(fn_shape(slf.syms@[18], names.type_id, seq![names.t], seq![], FunctionKind::TypeId));
            assert(is_app(fn_ret(slf.syms@[18]), SymbolId::I64, 0));
        }
        let f = FunctionTy::new(Vec::new(), bare_g(SymbolId::I64), FunctionKind::SizeOf, None);
        slf.add_builtin(ns_map, names.size_of, Symbol::new(names.size_of, params_of(names.t), SymbolKind::Function(f)));
        proof {
            assert(ns_paired(slf, *ns_map, base, slf.syms@.len(), names.invalid_ident));
            assert(fn_shape(slf.syms@[19], names.size_of, seq![names.t], seq![], FunctionKind::SizeOf));
            assert(is_app(fn_ret(slf.syms@[19]), SymbolId::I64, 0));
        }
        // the equality trait
        let f = FunctionTy::new(vec![FunctionArgument::new(names.self_value, param_g(names.self_ty)),
                                     FunctionArgument::new(names.value, param_g(names.self_ty))],
                                bare_g(SymbolId::BOOL), FunctionKind::Trait, None);
        let tr = Trait { funcs: vec![(names.eq_func, f)], synthesis: TraitSynthesis::Absent };
        slf.add_builtin(ns_map, names.eq_trait, Symbol::new(names.eq_trait, no_params(), SymbolKind::Trait(tr)));
        proof {
            assert(ns_paired(slf, *ns_map, base, slf.syms@.len(), names.invalid_ident));
            assert(trait_shape(slf.syms@[20], names.eq_trait, names.eq_func, TraitSynthesis::Absent));
            assert(sig_shape(trait_fn(slf.syms@[20]), seq![names.self_value, names.value], FunctionKind::Trait));
        }
        slf.add_builtin(ns_map, names.rc, Symbol::new(names.rc, params_of(names.t), SymbolKind::Opaque));
        proof { assert(ns_paired(slf, *ns_map, base, slf.syms@.len(), names.invalid_ident)); assert(opaque_shape(slf.syms@[21], names.rc, seq![names.t])); }
        let f = FunctionTy::new(vec![FunctionArgument::new(names.value, param_g(names.t))], app1_g(SymbolId::RC, param_g(names.t)), FunctionKind::Rc, None);
        slf.add_builtin(ns_map, names.builtin_rc, Symbol::new(names.builtin_rc, params_of(names.t), SymbolKind::Function(f)));
        proof {
            assert(ns_paired(slf, *ns_map, base, slf.syms@.len(), names.invalid_ident));
            assert(fn_shape(slf.syms@[22], names.builtin_rc, seq![names.t], seq![names.value], FunctionKind::Rc));
            assert(is_param_g(fn_arg(slf.syms@[22], 0), names.t));
            assert(is_app_param(fn_ret(slf.syms@[22]), SymbolId::RC, names.t));
        }
        let f = FunctionTy::new(vec![FunctionArgument::new(names.value, app1_g(SymbolId::RC, param_g(names.t)))], param_g(names.t), FunctionKind::RcGet, None);
        slf.add_builtin(ns_map, names.rc_get, Symbol::new(names.rc_get, params_of(names.t), SymbolKind::Function(f)));
        proof {
            assert(ns_paired(slf, *ns_map, base, slf.syms@.len(), names.invalid_ident));
            assert(fn_shape(slf.syms@[23], names.rc_get, seq![names.t], seq![names.value], FunctionKind::RcGet));
            assert(is_app_param(fn_arg(slf.syms@[23], 0), SymbolId::RC, names.t));
            assert(is_param_g(fn_ret(slf.syms@[23]), names.t));
        }
        let f = FunctionTy::new(vec![FunctionArgument::new(names.value, app1_g(SymbolId::RC, param_g(names.t))), FunctionArgument::new(names.value, param_g(names.t))], bare_g(SymbolId::UNIT), FunctionKind::RcSet, None);
        slf.add_builtin(ns_map, names.rc_set, Symbol::new(names.rc_set, params_of(names.t), SymbolKind::Function(f)));
        proof {
            assert(ns_paired(slf, *ns_map, base, slf.syms@.len(), names.invalid_ident));
            assert(fn_shape(slf.syms@[24], names.rc_set, seq![names.t], seq![names.value, names.value], FunctionKind::RcSet));
            assert(is_app_param(fn_arg(slf.syms@[24], 0), SymbolId::RC, names.t));
            assert(is_param_g(fn_arg(slf.syms@[24], 1), names.t));
            assert(is_app(fn_ret(slf.syms@[24]), SymbolId::UNIT, 0));
        }
        let f = FunctionTy::new(vec![FunctionArgument::new(names.value, bare_g(SymbolId::I64))], app1_g(SymbolId::PTR, param_g(names.t)), FunctionKind::PtrAlloc, None);
        slf.add_builtin(ns_map, names.ptr_alloc, Symbol::new(names.ptr_alloc, params_of(names.t), SymbolKind::Function(f)));
        proof {
            assert(ns_paired(slf, *ns_map, base, slf.syms@.len(), names.invalid_ident));
            assert(fn_shape(slf.syms@[25], names.ptr_alloc, seq![names.t], seq![names.value], FunctionKind::PtrAlloc));
            assert(is_app(fn_arg(slf.syms@[25], 0), SymbolId::I64, 0));
            assert(is_app_param(fn_ret(slf.syms@[25]), SymbolId::PTR, names.t));
        }
        let f = FunctionTy::new(vec![FunctionArgument::new(names.value, app1_g(SymbolId::PTR, param_g(names.t))), FunctionArgument::new(names.value, bare_g(SymbolId::I64))], bare_g(SymbolId::UNIT), FunctionKind::PtrFree, None);
        slf.add_builtin(ns_map, names.ptr_free, Symbol::new(names.ptr_free, params_of(names.t), SymbolKind::Function(f)));
        proof {
            assert(ns_paired(slf, *ns_map, base, slf.syms@.len(), names.invalid_ident));
            assert(fn_shape(slf.syms@[26], names.ptr_free, seq![names.t], seq![names.value, names.value], FunctionKind::PtrFree));
            assert(is_app_param(fn_arg(slf.syms@[26], 0), SymbolId::PTR, names.t));
            assert(is_app(fn_arg(slf.syms@[26], 1), SymbolId::I64, 0));
            assert(is_app(fn_ret(slf.syms@[26]), SymbolId::UNIT, 0));
        }
        let f = FunctionTy::new(vec![FunctionArgument::new(names.value, app1_g(SymbolId::PTR, param_g(names.t)))], param_g(names.t), FunctionKind::PtrRead, None);
        slf.add_builtin(ns_map, names.ptr_read, Symbol::new(names.ptr_read, params_of(names.t), SymbolKind::Function(f)));
        proof {
            assert(ns_paired(slf, *ns_map, base, slf.syms@.len(), names.invalid_ident));
            assert(fn_shape(slf.syms@[27], names.ptr_read, seq![names.t], seq![names.value], FunctionKind::PtrRead));
            assert(is_app_param(fn_arg(slf.syms@[27], 0), SymbolId::PTR, names.t));
            assert(is_param_g(fn_ret(slf.syms@[27]), names.t));
        }
        let f = FunctionTy::new(vec![FunctionArgument::new(names.value, app1_g(SymbolId::PTR, param_g(names.t))), FunctionArgument::new(names.value, param_g(names.t))], bare_g(SymbolId::UNIT), FunctionKind::PtrWrite, None);
        slf.add_builtin(ns_map, names.ptr_write, Symbol::new(names.ptr_write, params_of(names.t), SymbolKind::Function(f)));
        proof {
            assert(ns_paired(slf, *ns_map, base, slf.syms@.len(), names.invalid_ident));
            assert(fn_shape(slf.syms@[28], names.ptr_write, seq![names.t], seq![names.value, names.value], FunctionKind::PtrWrite));
            assert(is_app_param(fn_arg(slf.syms@[28], 0), SymbolId::PTR, names.t));
            assert(is_param_g(fn_arg(slf.syms@[28], 1), names.t));
            assert(is_app(fn_ret(slf.syms@[28]), SymbolId::UNIT, 0));
        }
        let f = FunctionTy::new(vec![FunctionArgument::new(names.value, app1_g(SymbolId::PTR, param_g(names.t))), FunctionArgument::new(names.value, param_g(names.t))], bare_g(SymbolId::UNIT), FunctionKind::PtrWriteUninit, None);
        slf.add_builtin(ns_map, names.ptr_write_uninit, Symbol::new(names.ptr_write_uninit, params_of(names.t), SymbolKind::Function(f)));
        proof {
            assert(ns_paired(slf, *ns_map, base, slf.syms@.len(), names.invalid_ident));
            assert(fn_shape(slf.syms@[29], names.ptr_write_uninit, seq![names.t], seq![names.value, names.value], FunctionKind::PtrWriteUninit));
            assert(is_app_param(fn_arg(slf.syms@[29], 0), SymbolId::PTR, names.t));
            assert(is_param_g(fn_arg(slf.syms@[29], 1), names.t));
            assert(is_app(fn_ret(slf.syms@[29]), SymbolId::UNIT, 0));
        }
        let f = FunctionTy::new(Vec::new(), app1_g(SymbolId::PTR, param_g(names.t)), FunctionKind::PtrNull, None);
        slf.add_builtin(ns_map, names.ptr_null, Symbol::new(names.ptr_null, params_of(names.t), SymbolKind::Function(f)));
        proof {
            assert(ns_paired(slf, *ns_map, base, slf.syms@.len(), names.invalid_ident));
            assert(fn_shape(slf.syms@[30], names.ptr_null, seq![names.t], seq![], FunctionKind::PtrNull));
            assert(is_app_param(fn_ret(slf.syms@[30]), SymbolId::PTR, names.t));
        }
        let f = FunctionTy::new(vec![FunctionArgument::new(names.value, app1_g(SymbolId::PTR, param_g(names.t))), FunctionArgument::new(names.value, bare_g(SymbolId::I64))], app1_g(SymbolId::PTR, param_g(names.t)), FunctionKind::PtrOffset, None);
        slf.add_builtin(ns_map, names.ptr_offset, Symbol::new(names.ptr_offset, params_of(names.t), SymbolKind::Function(f)));
        proof {
            assert(ns_paired(slf, *ns_map, base, slf.syms@.len(), names.invalid_ident));
            assert(fn_shape(slf.syms@[31], names.ptr_offset, seq![names.t], seq![names.value, names.value], FunctionKind::PtrOffset));
            assert(is_app_param(fn_arg(slf.syms@[31], 0), SymbolId::PTR, names.t));
            assert(is_app(fn_arg(slf.syms@[31], 1), SymbolId::I64, 0));
            assert(is_app_param(fn_ret(slf.syms@[31]), SymbolId::PTR, names.t));
        }
        let f = FunctionTy::new(vec![FunctionArgument::new(names.value, app1_g(SymbolId::PTR, param_g(names.t)))], app1_g(SymbolId::PTR, param_g(names.a)), FunctionKind::PtrCast, None);
        slf.add_builtin(ns_map, names.ptr_cast, Symbol::new(names.ptr_cast, params_of2(names.t, names.a), SymbolKind::Function(f)));
        proof {
            assert(ns_paired(slf, *ns_map, base, slf.syms@.len(), names.invalid_ident));
            assert(fn_shape(slf.syms@[32], names.ptr_cast, seq![names.t, names.a], seq![names.value], FunctionKind::PtrCast));
            assert(is_app_param(fn_arg(slf.syms@[32], 0), SymbolId::PTR, names.t));
            assert(is_app_param(fn_ret(slf.syms@[32]), SymbolId::PTR, names.a));
        }
        // the destruction trait, which every type implements by doing nothing
        let f = FunctionTy::new(vec![FunctionArgument::new(names.self_value, param_g(names.self_ty))],
                                bare_g(SymbolId::UNIT), FunctionKind::Trait, None);
        let tr = Trait { funcs: vec![(names.destroy_func, f)], synthesis: TraitSynthesis::UniversalNoop };
        slf.add_builtin(ns_map, names.destroy_trait, Symbol::new(names.destroy_trait, no_params(), SymbolKind::Trait(tr)));
        proof {
            assert(ns_paired(slf, *ns_map, base, slf.syms@.len(), names.invalid_ident));
            assert(trait_shape(slf.syms@[33], names.destroy_trait, names.destroy_func, TraitSynthesis::UniversalNoop));
            assert(sig_shape(trait_fn(slf.syms@[33]), seq![names.self_value], FunctionKind::Trait));
        }
        let f = FunctionTy::new(vec![FunctionArgument::new(names.value, app1_g(SymbolId::PTR, param_g(names.t)))], bare_g(SymbolId::UNIT), FunctionKind::PtrDrop, None);
        slf.add_builtin(ns_map, names.ptr_drop, Symbol::new(names.ptr_drop, params_of(names.t), SymbolKind::Function(f)));
        proof {
            assert(ns_paired(slf, *ns_map, base, slf.syms@.len(), names.invalid_ident));
            assert(fn_shape(slf.syms@[34], names.ptr_drop, seq![names.t], seq![names.value], FunctionKind::PtrDrop));
            assert(is_app_param(fn_arg(slf.syms@[34], 0), SymbolId::PTR, names.t));
            assert(is_app(fn_ret(slf.syms@[34]), SymbolId::UNIT, 0));
        }
        let f = FunctionTy::new(vec![FunctionArgument::new(names.value, app1_g(SymbolId::LIST, param_g(names.t))), FunctionArgument::new(names.value, app1_g(SymbolId::LIST, param_g(names.t)))], app1_g(SymbolId::LIST, param_g(names.t)), FunctionKind::ListConcat, None);
        slf.add_builtin(ns_map, names.list_concat, Symbol::new(names.list_concat, params_of(names.t), SymbolKind::Function(f)));
        proof {
            assert(ns_paired(slf, *ns_map, base, slf.syms@.len(), names.invalid_ident));
            assert(fn_shape(slf.syms@[35], names.list_concat, seq![names.t], seq![names.value, names.value], FunctionKind::ListConcat));
            assert(is_app_param(fn_arg(slf.syms@[35], 0), SymbolId::LIST, names.t));
            assert(is_app_param(fn_arg(slf.syms@[35], 1), SymbolId::LIST, names.t));
            assert(is_app_param(fn_ret(slf.syms@[35]), SymbolId::LIST, names.t));
        }
        // the tuple that $list_slice returns two lists in
        let fields = vec![(names.field0, param_g(names.t)), (names.field1, param_g(names.a))];
        let kind = SymbolKind::Container(Container::new(fields, ContainerKind::Tuple));
        slf.add_builtin(ns_map, names.invalid_ident, Symbol::new(names.tuple, params_of2(names.t, names.a), kind));
        proof {
            assert(ns_paired(slf, *ns_map, base, slf.syms@.len(), names.invalid_ident));
            assert(container_shape(slf.syms@[36], names.tuple, seq![names.t, names.a], ContainerKind::Tuple, seq![names.field0, names.field1]));
        }
        let f = FunctionTy::new(vec![FunctionArgument::new(names.value, app1_g(SymbolId::LIST, param_g(names.t))), FunctionArgument::new(names.value, bare_g(SymbolId::I64))], app1_g(SymbolId::OPTION, app2_g(SymbolId::LIST_SLICE_PAIR, app1_g(SymbolId::LIST, param_g(names.t)), app1_g(SymbolId::LIST, param_g(names.t)))), FunctionKind::ListSlice, None);
        slf.add_builtin(ns_map, names.list_slice, Symbol::new(names.list_slice, params_of(names.t), SymbolKind::Function(f)));
        proof {
            assert(ns_paired(slf, *ns_map, base, slf.syms@.len(), names.invalid_ident));
            assert(fn_shape(slf.syms@[37], names.list_slice, seq![names.t], seq![names.value, names.value], FunctionKind::ListSlice));
            assert(is_app_param(fn_arg(slf.syms@[37], 0), SymbolId::LIST, names.t));
            assert(is_app(fn_arg(slf.syms@[37], 1), SymbolId::I64, 0));
            assert(is_app(fn_ret(slf.syms@[37]), SymbolId::OPTION, 1) && is_app(arg_of(fn_ret(slf.syms@[37]), 0), SymbolId::LIST_SLICE_PAIR, 2) && is_app_param(arg_of(arg_of(fn_ret(slf.syms@[37]), 0), 0), SymbolId::LIST, names.t) && is_app_param(arg_of(arg_of(fn_ret(slf.syms@[37]), 0), 1), SymbolId::LIST, names.t));
        }
        let f = FunctionTy::new(vec![FunctionArgument::new(names.value, app1_g(SymbolId::LIST, param_g(names.t)))], bare_g(SymbolId::I64), FunctionKind::ListLen, None);
        slf.add_builtin(ns_map, names.list_len, Symbol::new(names.list_len, params_of(names.t), SymbolKind::Function(f)));
        proof {
            assert(ns_paired(slf, *ns_map, base, slf.syms@.len(), names.invalid_ident));
            assert(fn_shape(slf.syms@[38], names.list_len, seq![names.t], seq![names.value], FunctionKind::ListLen));
            assert(is_app_param(fn_arg(slf.syms@[38], 0), SymbolId::LIST, names.t));
            assert(is_app(fn_ret(slf.syms@[38]), SymbolId::I64, 0));
        }
        slf.add_plain(ns_map, names.byte);
        proof { assert(ns_paired(slf, *ns_map, base, slf.syms@.len(), names.invalid_ident)); }
        slf
    }
}

/// Which copy of an enum's parameters a variant constructor is held to does
/// not matter, as long as the names and bounds agree.
proof fn lemma_variant_fn_params(s: Symbol, fn_name: StringIndex, g1: Seq<BoundedGeneric>, g2: Seq<BoundedGeneric>,
                                 value: StringIndex, arg: Generic, range: SourceRange, id: SymbolId, index: usize,
                                 decl: Option<crate::ids::DeclId>)
    requires
        params(g1) == params(g2),
        is_variant_fn(s, fn_name, g1, value, arg, range, id, index, decl),
    ensures
        is_variant_fn(s, fn_name, g2, value, arg, range, id, index, decl),
{
    assert(g1.len() == params(g1).len());
    assert(g2.len() == params(g2).len());
    let r = s.kind->Function_0.ret;
    assert forall|j: int| 0 <= j < g2.len() implies {
        &&& (#[trigger] r.kind->Sym_1@[j]).range == range
        &&& r.kind->Sym_1@[j].err is None
        &&& r.kind->Sym_1@[j].kind is Generic
        &&& r.kind->Sym_1@[j].kind->Generic_0.name == g2[j].name
        &&& r.kind->Sym_1@[j].kind->Generic_0.bounds@ == g2[j].bounds@
    } by {
        assert(params(g1)[j] == params(g2)[j]);
    }
}

} // verus!
