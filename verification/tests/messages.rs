use semantic_analysis::errors::{Branch, Error, ErrorTitle, Note};
use semantic_analysis::syms::sym_map::{GenListId, SymbolId};
use semantic_analysis::syms::ty::Sym;
use semantic_analysis::ids::{SourceRange, StringIndex};

fn r(a: u32, b: u32) -> SourceRange {
    SourceRange { start: a, end: b }
}

#[test]
fn a_redefinition_highlights_the_new_name() {
    let m = Error::NameIsAlreadyDefined { source: r(3, 7), name: StringIndex(9) }.message().unwrap();
    assert_eq!(m.title, ErrorTitle::NameIsAlreadyDefined);
    assert_eq!(m.title.text(), "name is already defined");
    assert_eq!(m.highlights, vec![(r(3, 7), Some(Note::AlreadyASymbolNamed(StringIndex(9))))]);
}

#[test]
fn each_error_has_its_headline_and_note() {
    let m = Error::UnknownType(StringIndex(2), r(1, 2)).message().unwrap();
    assert_eq!(m.title.text(), "unknown type");
    assert_eq!(m.highlights, vec![(r(1, 2), Some(Note::NoTypeNamed(StringIndex(2))))]);
    let m = Error::NamespaceNotFound { source: r(4, 5), namespace: StringIndex(6) }.message().unwrap();
    assert_eq!(m.title.text(), "namespace not found");
    assert_eq!(m.highlights, vec![(r(4, 5), Some(Note::NoNamespaceNamed(StringIndex(6))))]);
    let m = Error::UnableToInfer(r(0, 1)).message().unwrap();
    assert_eq!(m.title.text(), "unable to infer type");
    assert_eq!(m.highlights, vec![(r(0, 1), Some(Note::SpecifyGenerics))]);
    let m = Error::PrivateSymbol { source: r(8, 9), name: StringIndex(1) }.message().unwrap();
    assert_eq!(m.title, ErrorTitle::PrivateSymbol);
    assert_eq!(m.highlights, vec![(r(8, 9), Some(Note::SymbolIsPrivate(StringIndex(1))))]);
}

#[test]
fn bypass_reports_nothing() {
    assert!(Error::Bypass.message().is_none());
}

fn ty(id: u32) -> Sym {
    Sym::Ty(SymbolId(id), GenListId(GenListId::EMPTY))
}

#[test]
fn two_sided_errors_highlight_both_places() {
    let m = Error::IfBodyAndElseMismatch { body: Branch(r(1, 2), ty(1)), else_block: Branch(r(3, 4), ty(3)) }
        .message().unwrap();
    assert_eq!(m.title.text(), "if branches differ in types");
    assert_eq!(m.highlights, vec![
        (r(1, 2), Some(Note::MainBranchReturns(ty(1)))),
        (r(3, 4), Some(Note::ButElseReturns(ty(3)))),
    ]);
    let m = Error::DuplicateField { declared_at: r(0, 1), error_point: r(5, 6) }.message().unwrap();
    assert_eq!(m.title.text(), "duplicate field");
    assert_eq!(m.highlights, vec![(r(0, 1), Some(Note::FieldDeclaredHere)), (r(5, 6), Some(Note::RedeclaredHere))]);
}

#[test]
fn some_errors_only_highlight() {
    let m = Error::BreakOutsideOfLoop(r(7, 8)).message().unwrap();
    assert_eq!(m.title.text(), "break outside of loop");
    assert_eq!(m.highlights, vec![(r(7, 8), None)]);
    let m = Error::GenericLenMismatch { source: r(1, 1), found: 3, expected: 2 }.message().unwrap();
    assert_eq!(m.title.text(), "generic length mismatch");
    assert_eq!(m.highlights, vec![(r(1, 1), Some(Note::GenericCounts { expected: 2, found: 3 }))]);
}
