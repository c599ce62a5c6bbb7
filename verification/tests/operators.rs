use semantic_analysis::types::SymbolId;

#[test]
fn numeric_types_support_arithmetic_and_ordering() {
    for id in [SymbolId::I8, SymbolId::I16, SymbolId::I32, SymbolId::I64, SymbolId::U8,
               SymbolId::U16, SymbolId::U32, SymbolId::U64, SymbolId::F32, SymbolId::F64] {
        let s = SymbolId(id);
        assert!(s.supports_arith());
        assert!(s.supports_ord());
        assert!(s.supports_eq());
        assert!(s.is_num());
    }
}

#[test]
fn only_integers_support_bitwise_operators() {
    assert!(SymbolId(SymbolId::U32).supports_bw());
    assert!(SymbolId(SymbolId::I8).is_int());
    assert!(!SymbolId(SymbolId::F32).supports_bw());
    assert!(!SymbolId(SymbolId::F64).is_int());
}

#[test]
fn signedness() {
    assert!(SymbolId(SymbolId::I64).is_sint());
    assert!(!SymbolId(SymbolId::U64).is_sint());
}

#[test]
fn bool_and_unit_support_only_equality() {
    for id in [SymbolId::BOOL, SymbolId::UNIT] {
        let s = SymbolId(id);
        assert!(s.supports_eq());
        assert!(!s.supports_arith());
        assert!(!s.supports_ord());
        assert!(!s.supports_bw());
        assert!(!s.is_num());
    }
    assert!(!SymbolId(SymbolId::STR).supports_eq());
}
