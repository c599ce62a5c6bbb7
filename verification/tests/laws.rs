use std::collections::HashMap;

use semantic_analysis::errors::Error;
use semantic_analysis::ids::{DeclId, ErrorId, ExprId, NodeId, SourceRange, StmtId, StringIndex};
use semantic_analysis::namespace::{Namespace, NamespaceMap};
use semantic_analysis::syms::sym_map::{GenListId, SymbolId as SymsId};
use semantic_analysis::syms::ty::Sym;
use semantic_analysis::types::symbol_map::BuiltinNames;
use semantic_analysis::types::ty::Type;
use semantic_analysis::types::{GenListId as TyGenListId, SymbolId, SymbolMap};
use semantic_analysis::{SemaErrors, TyInfo};

fn names() -> BuiltinNames {
    let n = |i: u32| StringIndex(100 + i);
    BuiltinNames {
        unit: n(0), int8: n(1), int16: n(2), int32: n(3), int64: n(4), uint8: n(5), uint16: n(6),
        uint32: n(7), uint64: n(8), float32: n(9), float64: n(10), boolean: n(11),
        true_variant: n(12), false_variant: n(13), error: n(14), never: n(15), ptr: n(16),
        count: n(17), value: n(18), t: n(19), a: n(20), range: n(21), low: n(22), high: n(23),
        option: n(24), some: n(25), none: n(26), result: n(27), ok: n(28), string: n(29),
        bool_true: n(30), bool_false: n(31), option_some: n(32), option_none: n(33),
        result_ok: n(34), result_error: n(35),
    }
}

fn ty(id: u32) -> Type {
    Type::Ty(SymbolId(id), TyGenListId(TyGenListId::EMPTY))
}

fn fresh() -> SymbolMap {
    let mut ns = NamespaceMap::new();
    SymbolMap::new(&mut ns, &names())
}

#[test]
fn unification_answers_the_same_in_either_order() {
    let pairs = [(SymbolId::I64, SymbolId::I64), (SymbolId::I64, SymbolId::BOOL), (SymbolId::ERROR, SymbolId::U8)];
    for (x, y) in pairs {
        let mut m1 = fresh();
        let mut m2 = fresh();
        assert_eq!(ty(x).eq(&mut m1, ty(y)), ty(y).eq(&mut m2, ty(x)));
    }
    let mut m1 = fresh();
    let o1 = m1.get_ty(SymbolId(SymbolId::OPTION), &[ty(SymbolId::I64)]);
    let o2 = m1.get_ty(SymbolId(SymbolId::OPTION), &[ty(SymbolId::BOOL)]);
    assert!(!o1.eq(&mut m1, o2));
    assert!(!o2.eq(&mut m1, o1));
}

#[test]
fn a_unification_keeps_holding() {
    let mut map = fresh();
    let v = map.new_var(SourceRange::zero());
    let w = map.new_var(SourceRange::zero());
    assert!(v.eq(&mut map, ty(SymbolId::I64)));
    assert!(w.eq(&mut map, ty(SymbolId::BOOL)));
    assert!(!v.eq(&mut map, w));
    assert!(v.eq(&mut map, ty(SymbolId::I64)));
    assert_eq!(v.sym(&mut map), Ok(SymbolId(SymbolId::I64)));
}

#[test]
fn every_type_unifies_with_itself() {
    let mut map = fresh();
    let v = map.new_var(SourceRange::zero());
    let r = map.get_ty(SymbolId(SymbolId::RESULT), &[v, ty(SymbolId::STR)]);
    assert!(r.eq(&mut map, r));
    assert!(v.eq(&mut map, v));
    assert_eq!(v.sym(&mut map), Err(Error::UnableToInfer(SourceRange::zero())));
}

#[test]
fn access_is_transitive() {
    let mut map = NamespaceMap::new();
    let a = map.push(Namespace::new(StringIndex(0)), None);
    let b = map.push(Namespace::new(StringIndex(1)), Some(a));
    let c = map.push(Namespace::new(StringIndex(2)), Some(b));
    assert!(map.can_access(a, b));
    assert!(map.can_access(b, c));
    assert!(map.can_access(a, c));
    assert!(map.can_access(c, c));
}

fn ty_info() -> TyInfo {
    TyInfo {
        exprs: vec![None, None],
        stmts: vec![None, None],
        decls: vec![None],
        funcs: HashMap::new(),
        idents: HashMap::new(),
        trait_funcs: HashMap::new(),
        impls: HashMap::new(),
    }
}

#[test]
fn the_first_error_of_a_statement_wins() {
    let mut info = ty_info();
    info.set_stmt(StmtId(1), ErrorId(3));
    info.set_stmt(StmtId(1), ErrorId(4));
    assert_eq!(info.stmt(StmtId(1)), Some(ErrorId(3)));
    assert_eq!(info.stmt(StmtId(0)), None);
    info.set_decl(DeclId(0), ErrorId(5));
    info.set_decl(DeclId(0), ErrorId(6));
    assert_eq!(info.decl(DeclId(0)), Some(ErrorId(5)));
}

#[test]
fn the_first_symbol_of_an_identifier_wins() {
    let mut info = ty_info();
    info.set_ident(ExprId(7), Some(SymsId(1)));
    info.set_ident(ExprId(7), None);
    assert_eq!(info.ident(ExprId(7)), Some(Some(SymsId(1))));
    assert_eq!(info.ident(ExprId(8)), None);
    info.set_func_call(ExprId(2), (SymsId(4), GenListId(0)));
    info.set_func_call(ExprId(2), (SymsId(5), GenListId(0)));
    assert_eq!(info.func_call(ExprId(2)), Some((SymsId(5), GenListId(0))));
    info.set_expr(ExprId(1), Sym::bool());
    assert_eq!(info.expr(ExprId(1)), Sym::bool());
}

#[test]
fn errors_are_numbered_in_order() {
    let mut errors = SemaErrors::new();
    let a = errors.push(NodeId(3), Error::Bypass);
    let b = errors.push(NodeId(4), Error::UnableToInfer(SourceRange::zero()));
    assert_eq!(a, ErrorId(0));
    assert_eq!(b, ErrorId(1));
    assert_eq!(errors.nodes, vec![NodeId(3), NodeId(4)]);
}
