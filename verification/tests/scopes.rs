use std::collections::HashMap;

use semantic_analysis::errors::Error;
use semantic_analysis::ids::{NamespaceId, NodeId, ScopeId, SourceRange, StringIndex};
use semantic_analysis::namespace::{Namespace, NamespaceMap, SymbolGetResult, Visibility};
use semantic_analysis::scope::{FunctionScope, GenericsScope, Scope, ScopeKind, ScopeMap, VariableScope};
use semantic_analysis::syms::sym_map::{
    BoundedGeneric, ClosureId, GenListId, Generic, GenericKind, SymbolId, SymbolMap, VarSub,
};
use semantic_analysis::syms::ty::Sym;
use semantic_analysis::syms::{Symbol, SymbolKind};

fn empty_symbols() -> SymbolMap {
    SymbolMap { syms: vec![], gens: vec![vec![]], vars: vec![], closures: vec![] }
}

fn name(i: u32) -> StringIndex {
    StringIndex(i)
}

fn ty(id: u32) -> Sym {
    Sym::Ty(SymbolId(id), GenListId(GenListId::EMPTY))
}

fn var(n: u32, t: Sym, m: bool) -> ScopeKind {
    ScopeKind::VariableScope(VariableScope::new(name(n), t, m))
}

#[test]
fn loops_and_functions_are_found_outwards() {
    let mut map = ScopeMap::new();
    let root = map.push(Scope::new(None, ScopeKind::Root));
    let func = map.push(Scope::new(Some(root), ScopeKind::Function(FunctionScope::new(ty(1), SourceRange::zero()))));
    let lp = map.push(Scope::new(Some(func), ScopeKind::Loop));
    let inner = Scope::new(Some(lp), var(5, ty(1), true));
    assert_eq!(inner.find_loop(&map), Some(()));
    assert_eq!(inner.find_curr_func(&map).unwrap().ret, ty(1));
    assert_eq!(map.get(func).find_loop(&map), None);
    assert_eq!(map.get(root).find_curr_func(&map), None);
    assert_eq!(lp, ScopeId(2));
}

#[test]
fn traits_and_qualified_types() {
    let mut map = ScopeMap::new();
    let root = map.push(Scope::new(None, ScopeKind::Root));
    let tr = map.push(Scope::new(Some(root), ScopeKind::ImplicitTrait(SymbolId(9))));
    let q = Scope::new(Some(tr), ScopeKind::QualifiedTypeNamespace(ty(3), None));
    assert_eq!(q.find_super(&map), Some(SymbolId(9)));
    assert_eq!(q.find_qualified_type(&map), Some(ty(3)));
    assert_eq!(map.get(root).find_super(&map), None);
}

#[test]
fn self_alias() {
    let mut map = ScopeMap::new();
    let root = map.push(Scope::new(None, ScopeKind::Root));
    let g = Generic::new(SourceRange::zero(), GenericKind::Sym(SymbolId(4), vec![]), None);
    let alias = map.push(Scope::new(Some(root), ScopeKind::AliasDecl(name(50), g)));
    let s = Scope::new(Some(alias), ScopeKind::Loop);
    assert_eq!(s.find_self(&map, name(50)).unwrap().sym(), Some(SymbolId(4)));
    assert!(s.find_self(&map, name(51)).is_none());
}

#[test]
fn generics_stop_at_a_fence() {
    let mut map = ScopeMap::new();
    let root = map.push(Scope::new(None, ScopeKind::Root));
    let outer = map.push(Scope::new(Some(root), ScopeKind::Generics(GenericsScope::new(vec![
        (BoundedGeneric::new(name(7), vec![]), ty(1)),
    ]))));
    let fence = map.push(Scope::new(Some(outer), ScopeKind::NamespaceFence));
    let inner = map.push(Scope::new(Some(fence), ScopeKind::Generics(GenericsScope::new(vec![
        (BoundedGeneric::new(name(8), vec![SymbolId(2)]), ty(2)),
        (BoundedGeneric::new(name(8), vec![]), ty(3)),
    ]))));
    let s = Scope::new(Some(inner), ScopeKind::Loop);
    assert_eq!(s.find_gen(name(8), &map), Some(ty(2)));
    assert_eq!(s.find_gen(name(7), &map), None);
    assert_eq!(map.get(fence).find_gen(name(7), &map), None);
    assert_eq!(map.get(outer).find_gen(name(7), &map), Some(ty(1)));

    let mut out = vec![(BoundedGeneric::new(name(9), vec![]), ty(5))];
    s.collect_generics(&map, &mut out);
    assert_eq!(out.len(), 2);
    assert_eq!(out[1].0.name, name(8));
    assert_eq!(out[1].0.bounds, vec![SymbolId(2)]);
    assert_eq!(out[1].1, ty(2));

    let mut all = vec![];
    map.get(outer).collect_generics(&map, &mut all);
    assert_eq!(all.len(), 1);
    assert_eq!(all[0].1, ty(1));
}

#[test]
fn symbols_come_from_the_namespaces_in_scope() {
    let mut namespaces = NamespaceMap::new();
    let ns = namespaces.push(Namespace::new(name(1)), None);
    namespaces.get_ns_mut(ns).add_sym(SourceRange::zero(), name(20), SymbolId(3), Visibility::Private).unwrap();
    let mut symbols = empty_symbols();
    let mut map = ScopeMap::new();
    let root = map.push(Scope::new(None, ScopeKind::ImplicitNamespace(ns)));
    let s = Scope::new(Some(root), ScopeKind::Loop);
    assert_eq!(s.find_sym(name(20), &map, &mut symbols, &namespaces), SymbolGetResult::Symbol(SymbolId(3)));
    assert_eq!(s.find_sym(name(21), &map, &mut symbols, &namespaces), SymbolGetResult::Undefined);
    assert_eq!(s.find_sym_from(name(20), &map, &mut symbols, &namespaces, ns), SymbolGetResult::Symbol(SymbolId(3)));

    let fenced = map.push(Scope::new(Some(root), ScopeKind::NamespaceFence));
    let f = Scope::new(Some(fenced), ScopeKind::Loop);
    assert_eq!(f.find_sym(name(20), &map, &mut symbols, &namespaces), SymbolGetResult::Undefined);

    let no_ns = Scope::new(None, ScopeKind::Root);
    assert_eq!(no_ns.find_sym(name(20), &map, &mut symbols, &namespaces), SymbolGetResult::Undefined);
}

#[test]
fn private_symbols_of_a_type_namespace() {
    let mut namespaces = NamespaceMap::new();
    let module = namespaces.push(Namespace::new(name(1)), None);
    let mut symbols = empty_symbols();
    let sym = symbols.pending(&mut namespaces, Some(module), name(2), 0);
    symbols.add_sym(sym, Symbol::new(name(2), vec![], SymbolKind::Opaque));
    let ty_ns = symbols.sym_ns(sym);
    namespaces.get_ns_mut(ty_ns).add_sym(SourceRange::zero(), name(30), SymbolId(77), Visibility::Private).unwrap();
    let t = Sym::Ty(sym, GenListId(GenListId::EMPTY));
    let mut map = ScopeMap::new();
    let root = map.push(Scope::new(None, ScopeKind::ImplicitNamespace(module)));
    let own = Scope::new(Some(root), ScopeKind::QualifiedTypeNamespace(t, None));
    assert_eq!(own.find_sym_from(name(30), &map, &mut symbols, &namespaces, module), SymbolGetResult::Symbol(SymbolId(77)));
    let outside = Scope::new(Some(root), ScopeKind::QualifiedTypeNamespace(t, Some(module)));
    assert_eq!(outside.find_sym_from(name(30), &map, &mut symbols, &namespaces, module), SymbolGetResult::Private);
}

#[test]
fn variables_are_found_and_captured() {
    let namespaces = NamespaceMap::new();
    let mut symbols = empty_symbols();
    let closure = symbols.new_closure();
    assert_eq!(closure, ClosureId(0));
    let mut map = ScopeMap::new();
    let root = map.push(Scope::new(None, ScopeKind::Root));
    let x = map.push(Scope::new(Some(root), var(10, ty(1), true)));
    let y = map.push(Scope::new(Some(x), var(11, ty(2), false)));
    let cl = map.push(Scope::new(Some(y), ScopeKind::Closure(closure)));
    let s = Scope::new(Some(cl), ScopeKind::Loop);

    let (v, captured) = s.find_var(name(10), &map, &namespaces, &mut symbols).unwrap();
    assert_eq!(v.name(), name(10));
    assert_eq!(v.ty(), ty(1));
    assert!(v.is_mutable());
    assert!(captured);
    assert_eq!(symbols.closure(closure).captured_variables, vec![(name(10), ty(1))]);

    // a second lookup records nothing twice
    s.find_var(name(10), &map, &namespaces, &mut symbols).unwrap();
    assert_eq!(symbols.closure(closure).captured_variables.len(), 1);

    let (w, captured) = map.get(y).find_var(name(11), &map, &namespaces, &mut symbols).unwrap();
    assert_eq!(w.ty(), ty(2));
    assert!(!captured);
    assert_eq!(s.find_var(name(12), &map, &namespaces, &mut symbols), Err(SymbolGetResult::Undefined));
}

#[test]
fn a_generic_shadows_an_outer_variable() {
    let namespaces = NamespaceMap::new();
    let mut symbols = empty_symbols();
    let mut map = ScopeMap::new();
    let root = map.push(Scope::new(None, ScopeKind::Root));
    let x = map.push(Scope::new(Some(root), var(10, ty(1), true)));
    let g = map.push(Scope::new(Some(x), ScopeKind::Generics(GenericsScope::new(vec![
        (BoundedGeneric::new(name(10), vec![]), ty(6)),
    ]))));
    let s = Scope::new(Some(g), ScopeKind::Loop);
    assert_eq!(s.find_var(name(10), &map, &namespaces, &mut symbols), Err(SymbolGetResult::Symbol(SymbolId(6))));
    assert_eq!(s.find_sym_from(name(10), &map, &mut symbols, &namespaces, NamespaceId(0)), SymbolGetResult::Symbol(SymbolId(6)));
}

#[test]
fn past_a_fence_only_the_root_namespace_is_searched() {
    let mut namespaces = NamespaceMap::new();
    let inner_ns = namespaces.push(Namespace::new(name(1)), None);
    let root_ns = namespaces.push(Namespace::new(name(2)), None);
    namespaces.get_ns_mut(inner_ns).add_sym(SourceRange::zero(), name(40), SymbolId(1), Visibility::Public).unwrap();
    namespaces.get_ns_mut(root_ns).add_sym(SourceRange::zero(), name(41), SymbolId(2), Visibility::Public).unwrap();
    let mut symbols = empty_symbols();
    let mut map = ScopeMap::new();
    let root = map.push(Scope::new(None, ScopeKind::ImplicitNamespace(root_ns)));
    let mid = map.push(Scope::new(Some(root), ScopeKind::QualifiedNamespace(inner_ns)));
    let fence = map.push(Scope::new(Some(mid), ScopeKind::NamespaceFence));
    let s = Scope::new(Some(fence), ScopeKind::Loop);
    assert_eq!(s.find_var(name(40), &map, &namespaces, &mut symbols), Err(SymbolGetResult::Undefined));
    assert_eq!(s.find_var(name(41), &map, &namespaces, &mut symbols), Err(SymbolGetResult::Symbol(SymbolId(2))));
    let open = Scope::new(Some(mid), ScopeKind::Loop);
    assert_eq!(open.find_var(name(40), &map, &namespaces, &mut symbols), Err(SymbolGetResult::Symbol(SymbolId(1))));
}

#[test]
fn unresolved_variables_cannot_name_a_symbol() {
    let mut symbols = empty_symbols();
    let v = symbols.new_var(NodeId(0), Some(name(3)), SourceRange { start: 4, end: 9 });
    assert_eq!(v.sym(&symbols), Err(Error::UnableToInfer(SourceRange { start: 4, end: 9 })));
    assert!(!v.is_err(&symbols));
    let w = symbols.new_var_ex(NodeId(1), None, SourceRange::zero(), VarSub::Concrete(Sym::never()));
    assert!(w.is_never(&symbols));
    assert_eq!(w.gens(&symbols), GenListId(GenListId::EMPTY));
    assert!(symbols.vars[1].is_concrete(&symbols));
    assert!(symbols.vars[0].is_root(&symbols));
}

#[test]
fn over_gives_the_first_value_outwards() {
    let mut map = ScopeMap::new();
    let root = map.push(Scope::new(None, ScopeKind::Root));
    let outer = map.push(Scope::new(Some(root), var(1, ty(2), false)));
    let middle = map.push(Scope::new(Some(outer), ScopeKind::Loop));
    let inner = Scope::new(Some(middle), var(3, ty(4), true));
    let first_var = |s: &Scope| match &s.kind {
        ScopeKind::VariableScope(v) => Some(v.name),
        _ => None,
    };
    assert_eq!(inner.over(&map, first_var), Some(name(3)));
    assert_eq!(map.get(middle).over(&map, first_var), Some(name(1)));
    let is_root = |s: &Scope| match s.kind {
        ScopeKind::Root => Some(true),
        _ => None,
    };
    assert_eq!(inner.over(&map, is_root), Some(true));
    let never = |_: &Scope| None::<u32>;
    assert_eq!(inner.over(&map, never), None);
}
