use semantic_analysis::errors::Error;
use semantic_analysis::ids::{NamespaceId, SourceRange, StringIndex};
use semantic_analysis::namespace::{Namespace, NamespaceMap, SymbolGetResult, Visibility};
use semantic_analysis::syms::sym_map::SymbolId;

fn r(a: u32, b: u32) -> SourceRange {
    SourceRange { start: a, end: b }
}

#[test]
fn add_and_get() {
    let mut ns = Namespace::new(StringIndex(1));
    assert!(ns.add_sym(r(0, 1), StringIndex(5), SymbolId(7), Visibility::Public).is_ok());
    assert_eq!(ns.get_sym(StringIndex(5)), Some(Ok(SymbolId(7))));
    assert_eq!(ns.get_sym(StringIndex(6)), None);
    assert_eq!(ns.path, StringIndex(1));
}

#[test]
fn adding_the_same_symbol_twice_is_a_no_op() {
    let mut ns = Namespace::new(StringIndex(1));
    ns.add_sym(r(0, 1), StringIndex(5), SymbolId(7), Visibility::Public).unwrap();
    assert!(ns.add_sym(r(2, 3), StringIndex(5), SymbolId(7), Visibility::Private).is_ok());
    assert_eq!(ns.get_sym(StringIndex(5)), Some(Ok(SymbolId(7))));
    assert_eq!(ns.entry(StringIndex(5)).unwrap().visibility(), Visibility::Public);
}

#[test]
fn a_clash_poisons_the_name() {
    let mut ns = Namespace::new(StringIndex(1));
    ns.add_sym(r(0, 1), StringIndex(5), SymbolId(7), Visibility::Public).unwrap();
    let e = ns.add_sym(r(4, 9), StringIndex(5), SymbolId(8), Visibility::Private).unwrap_err();
    let expected = Error::NameIsAlreadyDefined { source: r(4, 9), name: StringIndex(5) };
    assert_eq!(e, expected);
    assert_eq!(ns.get_sym(StringIndex(5)), Some(Err(expected)));
}

#[test]
fn set_err_sym_keeps_visibility() {
    let mut ns = Namespace::new(StringIndex(1));
    ns.add_sym(r(0, 1), StringIndex(5), SymbolId(7), Visibility::Public).unwrap();
    ns.set_err_sym(StringIndex(5), Error::Bypass);
    assert_eq!(ns.get_sym(StringIndex(5)), Some(Err(Error::Bypass)));
    assert_eq!(ns.entry(StringIndex(5)).unwrap().visibility(), Visibility::Public);
    ns.set_err_sym(StringIndex(6), Error::Bypass);
    assert_eq!(ns.entry(StringIndex(6)).unwrap().visibility(), Visibility::Private);
    assert_eq!(ns.syms().len(), 2);
}

#[test]
fn access_follows_the_parent_chain() {
    let mut map = NamespaceMap::new();
    let root = map.push(Namespace::new(StringIndex(0)), None);
    let child = map.push(Namespace::new(StringIndex(1)), Some(root));
    let other = map.push(Namespace::new(StringIndex(2)), None);
    assert_eq!(root, NamespaceId(0));
    assert_eq!(child.usize(), 1);
    assert!(map.can_access(root, child));
    assert!(map.can_access(child, child));
    assert!(!map.can_access(child, root));
    assert!(!map.can_access(root, other));
    assert_eq!(map.get_ns(child).parent, Some(root));
}

#[test]
fn private_symbols_are_hidden_from_outsiders() {
    let mut map = NamespaceMap::new();
    let root = map.push(Namespace::new(StringIndex(0)), None);
    let child = map.push(Namespace::new(StringIndex(1)), Some(root));
    let other = map.push(Namespace::new(StringIndex(2)), None);
    map.get_ns_mut(root).add_sym(r(0, 0), StringIndex(9), SymbolId(3), Visibility::Private).unwrap();
    map.get_ns_mut(root).add_sym(r(0, 0), StringIndex(10), SymbolId(4), Visibility::Public).unwrap();
    assert_eq!(map.get_sym(root, child, StringIndex(9)), SymbolGetResult::Symbol(SymbolId(3)));
    assert_eq!(map.get_sym(root, other, StringIndex(9)), SymbolGetResult::Private);
    assert_eq!(map.get_sym(root, other, StringIndex(10)), SymbolGetResult::Symbol(SymbolId(4)));
    assert_eq!(map.get_sym(root, other, StringIndex(11)), SymbolGetResult::Undefined);
}

#[test]
fn errored_entries_are_reported() {
    let mut map = NamespaceMap::new();
    let root = map.push(Namespace::new(StringIndex(0)), None);
    map.get_ns_mut(root).set_err_sym(StringIndex(3), Error::UnableToInfer(r(1, 2)));
    assert_eq!(map.get_sym(root, root, StringIndex(3)), SymbolGetResult::Errored(Error::UnableToInfer(r(1, 2))));
}

#[test]
fn two_namespaces_are_updated_together() {
    let mut map = NamespaceMap::new();
    let root = map.push(Namespace::new(StringIndex(1)), None);
    let child = map.push(Namespace::new(StringIndex(2)), Some(root));
    let other = map.push(Namespace::new(StringIndex(3)), Some(root));
    {
        let (a, b) = map.get_double(other, root);
        assert_eq!(a.path, StringIndex(3));
        assert_eq!(b.path, StringIndex(1));
        a.add_sym(r(0, 1), StringIndex(9), SymbolId(4), Visibility::Public).unwrap();
        b.add_sym(r(0, 1), StringIndex(8), SymbolId(5), Visibility::Public).unwrap();
    }
    assert_eq!(map.get_ns(other).get_sym(StringIndex(9)), Some(Ok(SymbolId(4))));
    assert_eq!(map.get_ns(root).get_sym(StringIndex(8)), Some(Ok(SymbolId(5))));
    assert_eq!(map.get_ns(child).get_sym(StringIndex(9)), None);
    let (c, d) = map.get_double(root, child);
    assert_eq!(c.path, StringIndex(1));
    assert_eq!(d.path, StringIndex(2));
}
