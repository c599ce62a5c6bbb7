use semantic_analysis::ids::StringIndex;
use semantic_analysis::namespace::NamespaceMap;
use semantic_analysis::syms::builtins::BuiltinNames;
use semantic_analysis::syms::containers::ContainerKind;
use semantic_analysis::syms::func::FunctionKind;
use semantic_analysis::syms::sym_map::{GenericKind, SymbolId, SymbolMap};
use semantic_analysis::syms::{SymbolKind, TraitSynthesis};

fn names() -> BuiltinNames {
    let n = |i: u32| StringIndex(200 + i);
    BuiltinNames {
        unit: n(0), int64: n(1), float64: n(2), boolean: n(3), false_variant: n(4), true_variant: n(5),
        err: n(6), never: n(7), ptr: n(8), t: n(9), a: n(10), range: n(11), min: n(12), max: n(13),
        option: n(14), some: n(15), none: n(16), result: n(17), ok: n(18), string: n(19), byte: n(20),
        value: n(21), list: n(22), type_id: n(23), size_of: n(24), eq_trait: n(25), eq_func: n(26),
        self_value: n(27), self_ty: n(28), rc: n(29), builtin_rc: n(30), rc_get: n(31), rc_set: n(32),
        ptr_alloc: n(33), ptr_free: n(34), ptr_read: n(35), ptr_write: n(36), ptr_write_uninit: n(37),
        ptr_null: n(38), ptr_offset: n(39), ptr_cast: n(40), destroy_trait: n(41), destroy_func: n(42),
        ptr_drop: n(43), list_concat: n(44), invalid_ident: n(45), tuple: n(46), field0: n(47),
        field1: n(48), list_slice: n(49), list_len: n(50), bool_false: n(51), bool_true: n(52),
        option_some: n(53), option_none: n(54), result_ok: n(55), result_err: n(56),
    }
}

#[test]
fn every_builtin_sits_at_its_id() {
    let mut ns = NamespaceMap::new();
    let names = names();
    let map = SymbolMap::new(&mut ns, &names);
    assert_eq!(map.syms.len(), 40);
    assert_eq!(ns.map.len(), 40);
    assert_eq!(map.sym(SymbolId(SymbolId::UNIT)).name, names.unit);
    assert_eq!(map.sym(SymbolId(SymbolId::I64)).name, names.int64);
    assert_eq!(map.sym(SymbolId(SymbolId::BOOL)).name, names.boolean);
    assert_eq!(map.sym(SymbolId(SymbolId::ERR)).name, names.err);
    assert_eq!(map.sym(SymbolId(SymbolId::STR)).name, names.string);
    assert_eq!(map.sym(SymbolId(SymbolId::LIST_SLICE_PAIR)).name, names.tuple);
    assert_eq!(map.sym(SymbolId(SymbolId::BYTE)).name, names.byte);
    assert_eq!(map.sym(SymbolId(SymbolId::PTR_CAST)).name, names.ptr_cast);
    for k in 0..40u32 {
        assert_eq!(map.sym_ns(SymbolId(k)).usize(), k as usize);
    }
    assert_eq!(ns.get_ns(map.sym_ns(SymbolId(SymbolId::LIST_SLICE_PAIR))).path, names.invalid_ident);
    assert_eq!(map.gens.len(), 1);
}

#[test]
fn enums_have_constructors_in_their_namespace() {
    let mut ns = NamespaceMap::new();
    let names = names();
    let map = SymbolMap::new(&mut ns, &names);
    let opt_ns = ns.get_ns(map.sym_ns(SymbolId(SymbolId::OPTION)));
    assert_eq!(opt_ns.get_sym(names.some), Some(Ok(SymbolId(11))));
    assert_eq!(opt_ns.get_sym(names.none), Some(Ok(SymbolId(12))));
    let some = map.sym(SymbolId(11));
    assert_eq!(some.name, names.option_some);
    match &some.kind {
        SymbolKind::Function(f) => {
            assert_eq!(f.args.len(), 1);
            assert_eq!(f.kind, FunctionKind::Enum { sym: SymbolId(SymbolId::OPTION), index: 0 });
        },
        _ => panic!("expected a function"),
    }
    // a unit variant takes no argument
    match &map.sym(SymbolId(12)).kind {
        SymbolKind::Function(f) => assert!(f.args.is_empty()),
        _ => panic!("expected a function"),
    }
    match &map.sym(SymbolId(4)).kind {
        SymbolKind::Function(f) => assert!(f.args.is_empty()),
        _ => panic!("expected a function"),
    }
    assert_eq!(ns.get_ns(map.sym_ns(SymbolId(11))).parent, Some(map.sym_ns(SymbolId(SymbolId::OPTION))));
    match &map.sym(SymbolId(SymbolId::RESULT)).kind {
        SymbolKind::Container(c) => {
            assert_eq!(c.kind, ContainerKind::Enum);
            assert_eq!(c.fields.len(), 2);
        },
        _ => panic!("expected a container"),
    }
}

#[test]
fn builtin_functions_and_traits() {
    let mut ns = NamespaceMap::new();
    let names = names();
    let map = SymbolMap::new(&mut ns, &names);
    match &map.sym(SymbolId(SymbolId::PTR_CAST)).kind {
        SymbolKind::Function(f) => {
            assert_eq!(f.kind, FunctionKind::PtrCast);
            assert_eq!(f.args.len(), 1);
            match &f.ret.kind {
                GenericKind::Sym(s, args) => {
                    assert_eq!(*s, SymbolId(SymbolId::PTR));
                    match &args[0].kind {
                        GenericKind::Generic(g) => assert_eq!(g.name, names.a),
                        _ => panic!("expected a parameter"),
                    }
                },
                _ => panic!("expected a symbol"),
            }
        },
        _ => panic!("expected a function"),
    }
    match &map.sym(SymbolId(SymbolId::DESTROY_TRAIT)).kind {
        SymbolKind::Trait(t) => {
            assert_eq!(t.synthesis, TraitSynthesis::UniversalNoop);
            assert_eq!(t.funcs[0].0, names.destroy_func);
        },
        _ => panic!("expected a trait"),
    }
    match &map.sym(SymbolId(SymbolId::EQ_TRAIT)).kind {
        SymbolKind::Trait(t) => assert_eq!(t.synthesis, TraitSynthesis::Absent),
        _ => panic!("expected a trait"),
    }
    match &map.sym(SymbolId(SymbolId::PTR)).kind {
        SymbolKind::Opaque => {},
        _ => panic!("expected an opaque type"),
    }
}
