use semantic_analysis::ids::{NodeId, SourceRange, StringIndex};
use semantic_analysis::syms::sym_map::{BoundedGeneric, GenListId, SymbolId, SymbolMap, VarId, VarSub};
use semantic_analysis::syms::ty::Sym;

fn empty_symbols() -> SymbolMap {
    SymbolMap { syms: vec![], gens: vec![vec![]], vars: vec![], closures: vec![] }
}

fn ty(id: u32) -> Sym {
    Sym::Ty(SymbolId(id), GenListId(GenListId::EMPTY))
}

fn param(i: u32) -> BoundedGeneric {
    BoundedGeneric::new(StringIndex(i), vec![SymbolId(SymbolId::EQ_TRAIT)])
}

fn fresh(map: &mut SymbolMap) -> Sym {
    map.new_var(NodeId(0), None, SourceRange::zero())
}

fn bind(map: &mut SymbolMap, v: Sym, t: Sym) {
    match v {
        Sym::Var(id) => map.vars_mut()[id.0 as usize].set_sub(VarSub::Concrete(t)),
        Sym::Ty(..) => panic!("not a variable"),
    }
}

fn var_id(v: Sym) -> VarId {
    match v {
        Sym::Var(id) => id,
        Sym::Ty(..) => panic!("not a variable"),
    }
}

#[test]
fn a_variable_occurs_in_itself_only() {
    let mut map = empty_symbols();
    let a = fresh(&mut map);
    let b = fresh(&mut map);
    assert!(var_id(a).occurs_in(&map, a));
    assert!(!var_id(a).occurs_in(&map, b));
    assert!(!var_id(a).occurs_in(&map, ty(SymbolId::I64)));
}

#[test]
fn a_variable_occurs_through_bindings_and_generic_arguments() {
    let mut map = empty_symbols();
    let a = fresh(&mut map);
    let b = fresh(&mut map);
    let c = fresh(&mut map);
    // b stands for Option<a>, c for b
    let g = map.add_gens(vec![(param(1), a)]);
    bind(&mut map, b, Sym::Ty(SymbolId(SymbolId::OPTION), g));
    bind(&mut map, c, b);
    assert!(var_id(a).occurs_in(&map, b));
    assert!(var_id(a).occurs_in(&map, c));
    assert!(var_id(a).occurs_in(&map, Sym::Ty(SymbolId(SymbolId::OPTION), g)));
    assert!(!var_id(c).occurs_in(&map, b));
    // a later entry of a list is searched as well
    let d = fresh(&mut map);
    let g2 = map.add_gens(vec![(param(1), ty(SymbolId::I64)), (param(2), d)]);
    assert!(var_id(d).occurs_in(&map, Sym::Ty(SymbolId(SymbolId::RESULT), g2)));
    assert!(!var_id(a).occurs_in(&map, Sym::Ty(SymbolId(SymbolId::RESULT), g2)));
}

#[test]
fn instantiating_follows_bindings() {
    let mut map = empty_symbols();
    let a = fresh(&mut map);
    let b = fresh(&mut map);
    bind(&mut map, a, b);
    bind(&mut map, b, ty(SymbolId::BOOL));
    let gens_before = map.gens().len();
    assert_eq!(map.vars().len(), 2);
    assert_eq!(map.vars()[0].sub, VarSub::Concrete(b));
    assert_eq!(a.instantiate(&mut map, 0), ty(SymbolId::BOOL));
    assert_eq!(map.gens().len(), gens_before);
    // an unbound variable stays itself
    let c = fresh(&mut map);
    assert_eq!(c.instantiate(&mut map, 0), c);
}

#[test]
fn instantiating_copies_generic_lists() {
    let mut map = empty_symbols();
    let a = fresh(&mut map);
    let b = fresh(&mut map);
    bind(&mut map, a, ty(SymbolId::I64));
    // Result<a, Option<b>> with b unbound
    let inner = map.add_gens(vec![(param(3), b)]);
    let outer = map.add_gens(vec![(param(1), a), (param(2), Sym::Ty(SymbolId(SymbolId::OPTION), inner))]);
    let before = map.gens.len();
    let r = Sym::Ty(SymbolId(SymbolId::RESULT), outer).instantiate(&mut map, 0);
    // two new lists: the copy of the inner one, then the copy of the outer one
    assert_eq!(map.gens.len(), before + 2);
    assert_eq!(r, Sym::Ty(SymbolId(SymbolId::RESULT), GenListId(before as u32 + 1)));
    let copy = &map.gens[before + 1];
    assert_eq!(copy.len(), 2);
    assert_eq!(copy[0].0.name, StringIndex(1));
    assert_eq!(copy[0].0.bounds, vec![SymbolId(SymbolId::EQ_TRAIT)]);
    assert_eq!(copy[0].1, ty(SymbolId::I64));
    assert_eq!(copy[1].0.name, StringIndex(2));
    assert_eq!(copy[1].1, Sym::Ty(SymbolId(SymbolId::OPTION), GenListId(before as u32)));
    let inner_copy = &map.gens[before];
    assert_eq!(inner_copy.len(), 1);
    assert_eq!(inner_copy[0].1, b);
    // the original lists are untouched
    assert_eq!(map.gens[outer.0 as usize][0].1, a);
}

#[test]
fn instantiating_an_empty_list_gives_the_empty_list() {
    let mut map = empty_symbols();
    let before = map.gens.len();
    let r = ty(SymbolId::STR).instantiate(&mut map, 0);
    assert_eq!(r, ty(SymbolId::STR));
    assert_eq!(map.gens.len(), before);
}
