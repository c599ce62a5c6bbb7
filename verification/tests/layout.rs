use semantic_analysis::ids::{SourceRange, StringIndex};
use semantic_analysis::types::ty_builder::{LayoutError, TypeBuilder};
use semantic_analysis::types::ty_map::{TypeId, TypeMap};
use semantic_analysis::types::ty_sym::{ConcreteTypeEnumKind, ConcreteTypeKind, FieldType, TypeSymbolKind};

fn layout(tm: &TypeMap, id: TypeId) -> (usize, usize) {
    match &tm.get(id).kind {
        TypeSymbolKind::Concrete(c) => (c.align, c.size),
        _ => panic!("not laid out"),
    }
}

#[test]
fn struct_fields_are_aligned() {
    let mut tm = TypeMap::new();
    let mut b = TypeBuilder::new();
    let s = tm.pending();
    b.add_ty(s, StringIndex(1), SourceRange::zero());
    b.set_struct_fields(s, vec![(StringIndex(2), FieldType::I32), (StringIndex(3), FieldType::I64)]);
    let mut errors = Vec::new();
    b.finalise(&mut tm, &mut errors);
    assert!(errors.is_empty());
    assert_eq!(layout(&tm, s), (8, 16));
    match &tm.get(s).kind {
        TypeSymbolKind::Concrete(c) => match &c.kind {
            ConcreteTypeKind::Struct(st) => {
                assert_eq!(st.fields.len(), 2);
                assert_eq!(st.fields[0].1, 0);
                assert_eq!(st.fields[1].1, 8);
            },
            _ => panic!("expected a struct"),
        },
        _ => panic!("expected a concrete type"),
    }
}

#[test]
fn trailing_padding_rounds_to_alignment() {
    let mut tm = TypeMap::new();
    let mut b = TypeBuilder::new();
    let s = tm.pending();
    b.add_ty(s, StringIndex(1), SourceRange::zero());
    b.set_struct_fields(s, vec![(StringIndex(2), FieldType::I64), (StringIndex(3), FieldType::Unit)]);
    let mut errors = Vec::new();
    b.finalise(&mut tm, &mut errors);
    assert_eq!(layout(&tm, s), (8, 16));
}

#[test]
fn empty_struct() {
    let mut tm = TypeMap::new();
    let mut b = TypeBuilder::new();
    let s = tm.pending();
    b.add_ty(s, StringIndex(1), SourceRange::zero());
    b.set_struct_fields(s, vec![]);
    let mut errors = Vec::new();
    b.finalise(&mut tm, &mut errors);
    assert_eq!(layout(&tm, s), (1, 0));
}

#[test]
fn enum_without_payloads_is_a_tag() {
    let mut tm = TypeMap::new();
    let mut b = TypeBuilder::new();
    let e = tm.pending();
    b.add_ty(e, StringIndex(1), SourceRange::zero());
    b.set_enum_fields(e, vec![(StringIndex(2), None), (StringIndex(3), None)]);
    let mut errors = Vec::new();
    b.finalise(&mut tm, &mut errors);
    assert!(errors.is_empty());
    assert_eq!(layout(&tm, e), (4, 4));
    match tm.get(e).kind() {
        TypeSymbolKind::Concrete(c) => match &c.kind {
            ConcreteTypeKind::Enum(en) => match en.kind() {
                ConcreteTypeEnumKind::Tag(t) => assert_eq!(t.fields(), &vec![StringIndex(2), StringIndex(3)]),
                _ => panic!("expected a tag"),
            },
            _ => panic!("expected an enum"),
        },
        _ => panic!("expected a concrete type"),
    }
}

#[test]
fn enum_with_payload_is_a_tagged_union() {
    let mut tm = TypeMap::new();
    let mut b = TypeBuilder::new();
    let e = tm.pending();
    b.add_ty(e, StringIndex(1), SourceRange::zero());
    b.set_enum_fields(e, vec![(StringIndex(2), Some(FieldType::I64)), (StringIndex(3), None)]);
    let mut errors = Vec::new();
    b.finalise(&mut tm, &mut errors);
    assert_eq!(layout(&tm, e), (8, 16));
    match &tm.get(e).kind {
        TypeSymbolKind::Concrete(c) => match &c.kind {
            ConcreteTypeKind::Enum(en) => match &en.kind {
                ConcreteTypeEnumKind::TaggedUnion(u) => {
                    assert_eq!(u.union_offset, 8);
                    assert_eq!(u.mappings.len(), 2);
                    assert_eq!(u.fields()[0].name(), StringIndex(2));
                    assert_eq!(u.fields()[0].ty(), Some(FieldType::I64));
                    assert_eq!(u.fields()[1].ty(), None);
                },
                _ => panic!("expected a tagged union"),
            },
            _ => panic!("expected an enum"),
        },
        _ => panic!("expected a concrete type"),
    }
}

#[test]
fn nested_custom_types_are_laid_out_first() {
    let mut tm = TypeMap::new();
    let mut b = TypeBuilder::new();
    let outer = tm.pending();
    let inner = tm.pending();
    b.add_ty(outer, StringIndex(1), SourceRange::zero());
    b.add_ty(inner, StringIndex(2), SourceRange::zero());
    b.set_struct_fields(outer, vec![(StringIndex(3), FieldType::I32), (StringIndex(4), FieldType::Custom(inner))]);
    b.set_struct_fields(inner, vec![(StringIndex(5), FieldType::I32), (StringIndex(6), FieldType::I32)]);
    let mut errors = Vec::new();
    b.finalise(&mut tm, &mut errors);
    assert!(errors.is_empty());
    assert_eq!(layout(&tm, inner), (4, 8));
    assert_eq!(layout(&tm, outer), (4, 12));
}

#[test]
fn a_type_that_contains_itself_is_cyclic() {
    let mut tm = TypeMap::new();
    let mut b = TypeBuilder::new();
    let a = tm.pending();
    let c = tm.pending();
    b.add_ty(a, StringIndex(1), SourceRange { start: 3, end: 4 });
    b.add_ty(c, StringIndex(2), SourceRange { start: 5, end: 6 });
    b.set_struct_fields(a, vec![(StringIndex(3), FieldType::Custom(c))]);
    b.set_struct_fields(c, vec![(StringIndex(4), FieldType::Custom(a))]);
    let mut errors = Vec::new();
    b.finalise(&mut tm, &mut errors);
    assert!(tm.get_opt(a).is_none());
    assert!(tm.get_opt(c).is_none());
    assert_eq!(errors.len(), 2);
    assert_eq!(errors.iter().filter(|e| matches!(e, LayoutError::CyclicType { .. })).count(), 1);
    assert_eq!(errors.iter().filter(|e| matches!(e, LayoutError::Bypass)).count(), 1);
    for e in &errors {
        if let LayoutError::CyclicType { backtrace, name, .. } = e {
            assert_eq!(backtrace.first(), Some(name));
            assert_eq!(backtrace.len(), 2);
        }
    }
    assert!(b.process_stack.is_empty());
}

#[test]
fn type_map_ids() {
    let mut tm = TypeMap::new();
    let a = tm.pending();
    let b = tm.pending();
    assert_eq!(a.as_u32(), 0);
    assert_eq!(b.as_u32(), 1);
    assert!(tm.get_opt(a).is_none());
}

#[test]
fn a_failed_type_reports_bypass_on_a_later_pass() {
    let mut tm = TypeMap::new();
    let mut b = TypeBuilder::new();
    let a = tm.pending();
    let ok = tm.pending();
    b.add_ty(a, StringIndex(1), SourceRange::zero());
    b.add_ty(ok, StringIndex(2), SourceRange::zero());
    b.set_struct_fields(a, vec![(StringIndex(3), FieldType::Custom(a))]);
    b.set_struct_fields(ok, vec![(StringIndex(4), FieldType::I32)]);
    let mut errors = Vec::new();
    b.finalise(&mut tm, &mut errors);
    assert_eq!(errors.len(), 1);
    match &errors[0] {
        LayoutError::CyclicType { name, backtrace, .. } => {
            assert_eq!(*name, StringIndex(1));
            assert_eq!(backtrace, &vec![StringIndex(1)]);
        },
        other => panic!("unexpected {other:?}"),
    }
    let mut again = Vec::new();
    b.finalise(&mut tm, &mut again);
    assert_eq!(again.len(), 1);
    assert!(matches!(again[0], LayoutError::Bypass));
    assert_eq!(layout(&tm, ok), (4, 4));
}

#[test]
fn a_size_past_usize_max_is_reported() {
    let mut tm = TypeMap::new();
    let mut b = TypeBuilder::new();
    let mut ids = Vec::new();
    for i in 0..64u32 {
        let t = tm.pending();
        b.add_ty(t, StringIndex(100 + i), SourceRange::zero());
        ids.push(t);
    }
    b.set_struct_fields(ids[0], vec![(StringIndex(1), FieldType::I64)]);
    for i in 1..64usize {
        let prev = ids[i - 1];
        b.set_struct_fields(ids[i], vec![(StringIndex(1), FieldType::Custom(prev)), (StringIndex(2), FieldType::Custom(prev))]);
    }
    let mut errors = Vec::new();
    b.finalise(&mut tm, &mut errors);
    assert!(errors.iter().any(|e| matches!(e, LayoutError::SizeOverflow)));
    assert_eq!(layout(&tm, ids[0]), (8, 8));
    assert_eq!(layout(&tm, ids[3]), (8, 64));
    assert!(tm.get_opt(ids[63]).is_none());
}
