use semantic_analysis::errors::Error;
use semantic_analysis::ids::{SourceRange, StringIndex};
use semantic_analysis::namespace::NamespaceMap;
use semantic_analysis::types::symbol_map::BuiltinNames;
use semantic_analysis::types::ty::Type;
use semantic_analysis::types::{Generic, GenericKind, GenListId, SymbolId, SymbolKind, SymbolMap};

fn names() -> BuiltinNames {
    let n = |i: u32| StringIndex(100 + i);
    BuiltinNames {
        unit: n(0), int8: n(1), int16: n(2), int32: n(3), int64: n(4), uint8: n(5), uint16: n(6),
        uint32: n(7), uint64: n(8), float32: n(9), float64: n(10), boolean: n(11),
        true_variant: n(12), false_variant: n(13), error: n(14), never: n(15), ptr: n(16),
        count: n(17), value: n(18), t: n(19), a: n(20), range: n(21), low: n(22), high: n(23),
        option: n(24), some: n(25), none: n(26), result: n(27), ok: n(28), string: n(29),
        bool_true: n(30), bool_false: n(31), option_some: n(32), option_none: n(33),
        result_ok: n(34), result_error: n(35),
    }
}

fn setup() -> (SymbolMap, NamespaceMap) {
    let mut ns = NamespaceMap::new();
    let map = SymbolMap::new(&mut ns, &names());
    (map, ns)
}

fn ty(id: u32) -> Type {
    Type::Ty(SymbolId(id), GenListId(GenListId::EMPTY))
}

fn range(a: u32) -> SourceRange {
    SourceRange { start: a, end: a + 1 }
}

#[test]
fn builtins_have_their_ids() {
    let (map, ns) = setup();
    assert_eq!(map.syms.len(), 25);
    assert_eq!(ns.map.len(), 25);
    assert_eq!(map.sym(SymbolId(SymbolId::I64)).name, StringIndex(104));
    assert_eq!(map.sym(SymbolId(SymbolId::STR)).name, StringIndex(129));
    assert_eq!(map.sym(SymbolId(12)).name, StringIndex(130));
    assert_eq!(map.sym(SymbolId(23)).name, StringIndex(135));
    assert_eq!(map.sym(SymbolId(SymbolId::RESULT)).generics, vec![StringIndex(119), StringIndex(120)]);
    assert_eq!(map.sym_ns(SymbolId(SymbolId::OPTION)).usize(), 18);
    assert!(matches!(map.sym(SymbolId(20)).kind, SymbolKind::Function(_)));
    let opt_ns = ns.get_ns(map.sym_ns(SymbolId(SymbolId::OPTION)));
    assert_eq!(opt_ns.get_sym(StringIndex(125)), Some(Ok(semantic_analysis::syms::sym_map::SymbolId(19))));
    assert_eq!(opt_ns.get_sym(StringIndex(126)), Some(Ok(semantic_analysis::syms::sym_map::SymbolId(20))));
}

#[test]
fn a_variable_unifies_with_a_type() {
    let (mut map, _ns) = setup();
    let v = map.new_var(range(1));
    assert_eq!(v.sym(&mut map), Err(Error::UnableToInfer(range(1))));
    assert!(v.eq(&mut map, ty(SymbolId::I64)));
    assert_eq!(v.sym(&mut map), Ok(SymbolId(SymbolId::I64)));
    assert!(!v.eq(&mut map, ty(SymbolId::BOOL)));
    assert!(v.ne(&mut map, ty(SymbolId::BOOL)));
}

#[test]
fn distinct_symbols_do_not_unify() {
    let (mut map, _ns) = setup();
    assert!(!ty(SymbolId::I64).eq(&mut map, ty(SymbolId::I32)));
    assert!(ty(SymbolId::I64).eq(&mut map, ty(SymbolId::I64)));
}

#[test]
fn error_and_never_unify_with_anything() {
    let (mut map, _ns) = setup();
    assert!(ty(SymbolId::ERROR).eq(&mut map, ty(SymbolId::I64)));
    assert!(ty(SymbolId::BOOL).eq(&mut map, ty(SymbolId::NEVER)));
}

#[test]
fn generic_arguments_are_unified() {
    let (mut map, _ns) = setup();
    let v = map.new_var(range(2));
    let opt_v = map.get_ty(SymbolId(SymbolId::OPTION), &[v]);
    let opt_i = map.get_ty(SymbolId(SymbolId::OPTION), &[ty(SymbolId::I64)]);
    assert!(opt_v.eq(&mut map, opt_i));
    assert_eq!(v.sym(&mut map), Ok(SymbolId(SymbolId::I64)));
    let opt_b = map.get_ty(SymbolId(SymbolId::OPTION), &[ty(SymbolId::BOOL)]);
    assert!(!opt_v.eq(&mut map, opt_b));
}

#[test]
fn a_variable_never_contains_itself() {
    let (mut map, _ns) = setup();
    let v = map.new_var(range(3));
    let opt_v = map.get_ty(SymbolId(SymbolId::OPTION), &[v]);
    assert!(!v.eq(&mut map, opt_v));
    assert!(!opt_v.eq(&mut map, v));
    assert_eq!(v.sym(&mut map), Err(Error::UnableToInfer(range(3))));
}

#[test]
fn two_variables_share_their_binding() {
    let (mut map, _ns) = setup();
    let a = map.new_var(range(4));
    let b = map.new_var(range(5));
    assert!(a.eq(&mut map, b));
    assert!(b.eq(&mut map, ty(SymbolId::U8)));
    assert_eq!(a.sym(&mut map), Ok(SymbolId(SymbolId::U8)));
    assert!(a.eq(&mut map, a));
}

#[test]
fn instantiate_replaces_bound_variables() {
    let (mut map, _ns) = setup();
    let v = map.new_var(range(6));
    let opt_v = map.get_ty(SymbolId(SymbolId::OPTION), &[v]);
    assert!(v.eq(&mut map, ty(SymbolId::I64)));
    let inst = opt_v.instantiate(&mut map);
    let gens = inst.gens(&map).to_vec();
    assert_eq!(gens.len(), 1);
    assert!(matches!(gens[0].1, Type::Ty(SymbolId(SymbolId::I64), _)));
    assert!(inst.instantiate_shallow(&map) == inst);
    assert!(v.instantiate_shallow(&map) == ty(SymbolId::I64));
}

#[test]
fn gens_pairs_parameters_with_arguments() {
    let (mut map, _ns) = setup();
    let res = map.get_ty(SymbolId(SymbolId::RESULT), &[ty(SymbolId::I64), ty(SymbolId::BOOL)]);
    let gens = res.gens(&map).to_vec();
    assert_eq!(gens.len(), 2);
    assert_eq!(gens[0].0, StringIndex(119));
    assert_eq!(gens[1].0, StringIndex(120));
    let unit = map.get_ty(SymbolId(SymbolId::UNIT), &[]);
    assert!(unit == ty(SymbolId::UNIT));
    let v = map.new_var(range(7));
    assert!(v.gens(&map).is_empty());
}

#[test]
fn add_gens_of_nothing_is_the_empty_list() {
    let (mut map, _ns) = setup();
    assert_eq!(map.add_gens(vec![]), GenListId(GenListId::EMPTY));
    let g = map.add_gens(vec![(StringIndex(1), ty(SymbolId::I64))]);
    assert_eq!(g, GenListId(1));
}

#[test]
fn generics_turn_into_types() {
    let (mut map, _ns) = setup();
    let t = StringIndex(119);
    let g = Generic::new(range(8), GenericKind::Sym(SymbolId(SymbolId::OPTION),
        vec![Generic::new(range(9), GenericKind::Generic(t))]));
    let gens = [(t, ty(SymbolId::I32))];
    let result = g.to_ty(&gens, &mut map).unwrap();
    let expected = map.get_ty(SymbolId(SymbolId::OPTION), &[ty(SymbolId::I32)]);
    assert!(result.eq(&mut map, expected));
    assert_eq!(g.sym(), Some(SymbolId(SymbolId::OPTION)));
}

#[test]
fn an_unknown_parameter_is_reported() {
    let (mut map, _ns) = setup();
    let g = Generic::new(range(8), GenericKind::Sym(SymbolId(SymbolId::RESULT), vec![
        Generic::new(range(9), GenericKind::Sym(SymbolId(SymbolId::I64), vec![])),
        Generic::new(range(10), GenericKind::Generic(StringIndex(77))),
    ]));
    assert_eq!(g.to_ty(&[], &mut map), Err(Error::UnknownType(StringIndex(77), range(10))));
    let p = Generic::new(range(11), GenericKind::Generic(StringIndex(78)));
    assert_eq!(p.sym(), None);
}
