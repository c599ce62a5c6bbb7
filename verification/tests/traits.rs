use semantic_analysis::ids::{NamespaceId, NodeId, SourceRange, StringIndex};
use semantic_analysis::namespace::NamespaceMap;
use semantic_analysis::syms::builtins::BuiltinNames;
use semantic_analysis::syms::sym_map::{BoundedGeneric, GenListId, Generic, GenericKind, SymbolId, SymbolMap, VarSub};
use semantic_analysis::syms::ty::Sym;
use semantic_analysis::syms::{TraitImplementation, TraitSynthesis};

fn names() -> BuiltinNames {
    let n = |i: u32| StringIndex(300 + i);
    BuiltinNames {
        unit: n(0), int64: n(1), float64: n(2), boolean: n(3), false_variant: n(4), true_variant: n(5),
        err: n(6), never: n(7), ptr: n(8), t: n(9), a: n(10), range: n(11), min: n(12), max: n(13),
        option: n(14), some: n(15), none: n(16), result: n(17), ok: n(18), string: n(19), byte: n(20),
        value: n(21), list: n(22), type_id: n(23), size_of: n(24), eq_trait: n(25), eq_func: n(26),
        self_value: n(27), self_ty: n(28), rc: n(29), builtin_rc: n(30), rc_get: n(31), rc_set: n(32),
        ptr_alloc: n(33), ptr_free: n(34), ptr_read: n(35), ptr_write: n(36), ptr_write_uninit: n(37),
        ptr_null: n(38), ptr_offset: n(39), ptr_cast: n(40), destroy_trait: n(41), destroy_func: n(42),
        ptr_drop: n(43), list_concat: n(44), invalid_ident: n(45), tuple: n(46), field0: n(47),
        field1: n(48), list_slice: n(49), list_len: n(50), bool_false: n(51), bool_true: n(52),
        option_some: n(53), option_none: n(54), result_ok: n(55), result_err: n(56),
    }
}

fn builtin_map() -> SymbolMap {
    let mut ns = NamespaceMap::new();
    SymbolMap::new(&mut ns, &names())
}

fn ty(id: u32) -> Sym {
    Sym::Ty(SymbolId(id), GenListId(GenListId::EMPTY))
}

fn pattern(id: u32) -> Generic {
    Generic::new(SourceRange::zero(), GenericKind::Sym(SymbolId(id), vec![]), None)
}

#[test]
fn an_explicit_impl_is_found_for_the_type() {
    let mut map = builtin_map();
    map.traits(SymbolId(SymbolId::STR)).insert(
        SymbolId::EQ_TRAIT,
        (NamespaceId(7), pattern(SymbolId::STR), vec![BoundedGeneric::new(StringIndex(1), vec![])]),
    );
    assert_eq!(map.traits(SymbolId(SymbolId::STR)).len(), 1);
    assert!(map.traits(SymbolId(SymbolId::BOOL)).is_empty());
    match map.trait_implementation(ty(SymbolId::STR), SymbolId(SymbolId::EQ_TRAIT)) {
        Some(TraitImplementation::Explicit(ns, g, gs)) => {
            assert_eq!(ns, NamespaceId(7));
            assert_eq!(g.sym(), Some(SymbolId(SymbolId::STR)));
            assert_eq!(gs.len(), 1);
            assert_eq!(gs[0].name, StringIndex(1));
        },
        other => panic!("unexpected {other:?}"),
    }
}

#[test]
fn a_trait_without_impl_or_synthesis_is_not_implemented() {
    let map = builtin_map();
    assert!(map.trait_implementation(ty(SymbolId::BOOL), SymbolId(SymbolId::EQ_TRAIT)).is_none());
}

#[test]
fn a_synthesized_trait_is_implemented_by_every_type() {
    let map = builtin_map();
    match map.trait_implementation(ty(SymbolId::BOOL), SymbolId(SymbolId::DESTROY_TRAIT)) {
        Some(TraitImplementation::Synthesized(s)) => assert_eq!(s, TraitSynthesis::UniversalNoop),
        other => panic!("unexpected {other:?}"),
    }
}

#[test]
fn an_unresolved_variable_implements_nothing() {
    let mut map = builtin_map();
    let v = map.new_var(NodeId(0), None, SourceRange::zero());
    assert!(map.trait_implementation(v, SymbolId(SymbolId::DESTROY_TRAIT)).is_none());
    // once it stands for a type, that type's implementations count
    if let Sym::Var(id) = v {
        map.vars[id.0 as usize].set_sub(VarSub::Concrete(ty(SymbolId::BOOL)));
    }
    assert!(map.trait_implementation(v, SymbolId(SymbolId::DESTROY_TRAIT)).is_some());
}

#[test]
fn a_non_trait_symbol_is_implemented_by_nothing() {
    let map = builtin_map();
    assert!(map.trait_implementation(ty(SymbolId::BOOL), SymbolId(SymbolId::I64)).is_none());
}
