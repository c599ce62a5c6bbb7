use vstd::prelude::*;
use vstd::arithmetic::power2::pow2;

use crate::ids::{SourceRange, StringIndex};
use crate::types::ty_map::{TypeId, TypeMap};
use crate::types::ty_sym::{
    ConcreteType, ConcreteTypeEnum, ConcreteTypeEnumKind, ConcreteTypeEnumStatus,
    ConcreteTypeKind, ConcreteTypeStruct, FieldType, StructField, TaggedUnionField,
    TypeStructStatus, TypeSymbol, TypeSymbolKind, TypeTag, TypeTaggedUnion,
};

verus! {

/// Where the layout pass stands with one type.
#[derive(Clone, Copy, Debug, PartialEq, Eq, Structural)]
pub enum ProcessingState {
    Uninit,
    Processing,
    Errored,
}

#[derive(Clone, Copy, Debug, PartialEq, Eq, Structural)]
pub struct PartialStructField {
    pub name: StringIndex,
    pub ty: FieldType,
}

#[derive(Clone, Copy, Debug, PartialEq, Eq, Structural)]
pub struct PartialEnumField {
    pub name: StringIndex,
    pub ty: Option<FieldType>,
}

/// The declared shape of a type whose layout is not computed yet.
#[derive(Debug)]
pub enum PartialTypeKind {
    Struct { fields: Vec<PartialStructField> },
    Enum { mappings: Vec<PartialEnumField> },
}

#[derive(Debug)]
pub struct PartialType {
    pub name: StringIndex,
    pub source: SourceRange,
    pub process_state: ProcessingState,
    pub kind: Option<PartialTypeKind>,
}

/// Why a type could not be laid out.
#[derive(Clone, Debug)]
pub enum LayoutError {
    /// The type contains itself by value; `backtrace` lists the types on
    /// the path from the first occurrence of `name` back to it.
    CyclicType { source: SourceRange, backtrace: Vec<StringIndex>, name: StringIndex },
    /// The type depends on a type that already failed.
    Bypass,
    /// A size does not fit in a `usize`.
    SizeOverflow,
}

/// The partial types, keyed by the raw `TypeId`, in an `sti` hash map.
#[verifier::external_body]
pub struct TypeTable {
    map: sti::hash::HashMap<u32, PartialType>,
}

/// The entries that a `TypeTable` holds.
pub uninterp spec fn type_table_contents(t: TypeTable) -> Map<u32, PartialType>;

impl TypeTable {
    /// `sti::hash::HashMap::new`: an empty map.
    #[verifier::external_body]
    fn new() -> (table: TypeTable)
        ensures
            type_table_contents(table) =~= Map::empty(),
    {
        TypeTable { map: sti::hash::HashMap::new() }
    }

    /// `sti::hash::HashMap::insert`: sets `k` to `v` and hands back the value it replaced.
    #[verifier::external_body]
    fn insert(&mut self, k: u32, v: PartialType) -> (r: Option<PartialType>)
        ensures
            type_table_contents(*final(self)) == type_table_contents(*old(self)).insert(k, v),
            r == (if type_table_contents(*old(self)).contains_key(k) {
                Some(type_table_contents(*old(self))[k])
            } else {
                None
            }),
    {
        self.map.insert(k, v)
    }

    /// `sti::hash::HashMap::remove`: removes `k` and hands back its value.
    #[verifier::external_body]
    fn remove(&mut self, k: u32) -> (r: Option<PartialType>)
        ensures
            type_table_contents(*final(self)) == type_table_contents(*old(self)).remove(k),
            r == (if type_table_contents(*old(self)).contains_key(k) {
                Some(type_table_contents(*old(self))[k])
            } else {
                None
            }),
    {
        self.map.remove(&k)
    }

    /// `sti::hash::HashMap::get`: the value under `k`, if any.
    #[verifier::external_body]
    fn get(&self, k: u32) -> (r: Option<&PartialType>)
        ensures
            match r {
                Some(v) => type_table_contents(*self).contains_key(k)
                    && *v == type_table_contents(*self)[k],
                None => !type_table_contents(*self).contains_key(k),
            },
    {
        self.map.get(&k)
    }

    /// `sti::hash::HashMap::iter`, keys only: each key once, in an unspecified order.
    #[verifier::external_body]
    fn keys(&self) -> (r: Vec<u32>)
        ensures
            r@.to_set() == type_table_contents(*self).dom(),
            r@.no_duplicates(),
    {
        self.map.iter().map(|(k, _)| *k).collect()
    }
}

/// The types added so far, and the names of the types being laid out,
/// outermost first.
pub struct TypeBuilder {
    pub types: TypeTable,
    pub process_stack: Vec<StringIndex>,
}

/// Alignments that the layout pass produces.
pub open spec fn align_ok(n: nat) -> bool {
    n == 1 || n == 4 || n == 8
}

/// `x` rounded up to a multiple of `n`.
pub open spec fn ceil_to(x: int, n: int) -> int {
    ((x + n - 1) / n) * n
}

/// `sti::num::ceil_to_multiple_pow2`: rounds `x` up to a multiple of the
/// power of two `n` (as `(x + (n - 1)) & !(n - 1)`).
#[verifier::external_body]
fn ceil_to_multiple_pow2(x: usize, n: usize) -> (r: usize)
    requires
        exists|e: nat| pow2(e) == n,
        x + n - 1 <= usize::MAX,
    ensures
        r == ceil_to(x as int, n as int),
{
    sti::num::ceil_to_multiple_pow2(x, n)
}

/// Rounds `x` up to a multiple of `n`, or `None` when that overflows.
fn checked_ceil(x: usize, n: usize) -> (r: Option<usize>)
    requires
        align_ok(n as nat),
    ensures
        match r {
            Some(v) => v == ceil_to(x as int, n as int),
            None => ceil_to(x as int, n as int) > usize::MAX,
        },
{
    proof {
        vstd::arithmetic::power2::lemma2_to64();
        if n == 1 {
            assert(pow2(0) == n);
        } else if n == 4 {
            assert(pow2(2) == n);
        } else {
            assert(pow2(3) == n);
        }
    }
    if x > usize::MAX - (n - 1) {
        proof {
            assert(ceil_to(x as int, n as int) >= x) by (nonlinear_arith)
                requires
                    n >= 1,
                    x >= 0,
            {
                let q = (x + n - 1) / (n as int);
                assert(x + n - 1 < q * n + n);
            }
            if n == 4 {
                assert(ceil_to(x as int, 4) > usize::MAX) by (nonlinear_arith)
                    requires
                        x > usize::MAX - 3,
                        usize::MAX % 4 == 3,
                {
                }
            } else if n == 8 {
                assert(ceil_to(x as int, 8) > usize::MAX) by (nonlinear_arith)
                    requires
                        x > usize::MAX - 7,
                        usize::MAX % 8 == 7,
                {
                }
            }
        }
        None
    } else {
        Some(ceil_to_multiple_pow2(x, n))
    }
}


/// The (align, size) of a laid-out symbol.
pub open spec fn symbol_layout(s: TypeSymbol) -> Option<(nat, nat)> {
    match s.kind {
        TypeSymbolKind::Concrete(c) => Some((c.align as nat, c.size as nat)),
        _ => None,
    }
}

/// The (align, size) of a field type, given the types laid out so far;
/// `None` when it is not known.
pub open spec fn field_layout(tm: Seq<Option<TypeSymbol>>, ty: FieldType) -> Option<(nat, nat)> {
    match ty {
        FieldType::I64 => Some((8, 8)),
        FieldType::I32 => Some((4, 4)),
        FieldType::F64 => Some((8, 8)),
        FieldType::Unit => Some((1, 1)),
        FieldType::Error => Some((1, 0)),
        FieldType::Any => None,
        FieldType::Never => None,
        FieldType::Custom(v) => if v.0 < tm.len() {
            match tm[v.0 as int] {
                Some(s) => symbol_layout(s),
                None => None,
            }
        } else {
            None
        },
    }
}

pub open spec fn max_nat(a: nat, b: nat) -> nat {
    if a >= b { a } else { b }
}

/// The end of the last field of a struct whose fields have the given layouts.
pub open spec fn struct_cursor(ls: Seq<(nat, nat)>) -> int
    decreases ls.len(),
{
    if ls.len() == 0 {
        0
    } else {
        ceil_to(struct_cursor(ls.drop_last()), ls.last().0 as int) + ls.last().1
    }
}

/// The alignment of a struct: the largest field alignment, at least 1.
pub open spec fn struct_align(ls: Seq<(nat, nat)>) -> nat
    decreases ls.len(),
{
    if ls.len() == 0 {
        1
    } else {
        max_nat(struct_align(ls.drop_last()), ls.last().0)
    }
}

/// Every field has a known layout.
pub open spec fn fields_laid_out(tm: Seq<Option<TypeSymbol>>, fields: Seq<PartialStructField>) -> bool {
    forall|i: int| 0 <= i < fields.len() ==> #[trigger] field_layout(tm, fields[i].ty) is Some
}

pub open spec fn field_layouts(tm: Seq<Option<TypeSymbol>>, fields: Seq<PartialStructField>) -> Seq<(nat, nat)> {
    fields.map_values(|f: PartialStructField| field_layout(tm, f.ty).unwrap())
}

/// The offset of field `i`: the end of the fields before it, rounded up
/// to its alignment.
pub open spec fn struct_offset(ls: Seq<(nat, nat)>, i: int) -> int {
    ceil_to(struct_cursor(ls.take(i)), ls[i].0 as int)
}

/// `sym` is the C-like layout of a struct with these fields: each field at
/// the next offset that its alignment allows, the size rounded up to the
/// struct's alignment.
pub open spec fn struct_symbol_ok(
    tm: Seq<Option<TypeSymbol>>,
    name: StringIndex,
    fields: Seq<PartialStructField>,
    sym: TypeSymbol,
) -> bool {
    let ls = field_layouts(tm, fields);
    &&& fields_laid_out(tm, fields)
    &&& sym.display_name == name
    &&& sym.kind matches TypeSymbolKind::Concrete(c)
    &&& c.align == struct_align(ls)
    &&& c.size == ceil_to(struct_cursor(ls), struct_align(ls) as int)
    &&& c.kind matches ConcreteTypeKind::Struct(st)
    &&& st.status == TypeStructStatus::User
    &&& st.fields@.len() == fields.len()
    &&& forall|i: int| 0 <= i < fields.len() ==> #[trigger] st.fields@[i] == (
        StructField { name: fields[i].name, ty: fields[i].ty },
        struct_offset(ls, i) as usize,
    )
}

/// Every payload of an enum has a known layout.
pub open spec fn payloads_laid_out(tm: Seq<Option<TypeSymbol>>, fields: Seq<PartialEnumField>) -> bool {
    forall|i: int| 0 <= i < fields.len() ==> match #[trigger] fields[i].ty {
        Some(t) => field_layout(tm, t) is Some,
        None => true,
    }
}

/// The largest payload alignment, at least 1.
pub open spec fn union_align(tm: Seq<Option<TypeSymbol>>, fields: Seq<PartialEnumField>) -> nat
    decreases fields.len(),
{
    if fields.len() == 0 {
        1
    } else {
        match fields.last().ty {
            Some(t) => max_nat(union_align(tm, fields.drop_last()), field_layout(tm, t).unwrap().0),
            None => union_align(tm, fields.drop_last()),
        }
    }
}

/// The largest payload size.
pub open spec fn union_size(tm: Seq<Option<TypeSymbol>>, fields: Seq<PartialEnumField>) -> nat
    decreases fields.len(),
{
    if fields.len() == 0 {
        0
    } else {
        match fields.last().ty {
            Some(t) => max_nat(union_size(tm, fields.drop_last()), field_layout(tm, t).unwrap().1),
            None => union_size(tm, fields.drop_last()),
        }
    }
}

pub open spec fn no_payloads(fields: Seq<PartialEnumField>) -> bool {
    forall|i: int| 0 <= i < fields.len() ==> #[trigger] fields[i].ty is None
}

/// `sym` is the layout of an enum with these variants: a 4-byte tag alone
/// when no variant carries a value, else the tag followed by a union of the
/// payloads at the next offset the union's alignment allows.
pub open spec fn enum_symbol_ok(
    tm: Seq<Option<TypeSymbol>>,
    name: StringIndex,
    fields: Seq<PartialEnumField>,
    sym: TypeSymbol,
) -> bool {
    let ua = union_align(tm, fields);
    let us = union_size(tm, fields);
    &&& payloads_laid_out(tm, fields)
    &&& sym.display_name == name
    &&& sym.kind matches TypeSymbolKind::Concrete(c)
    &&& c.kind matches ConcreteTypeKind::Enum(e)
    &&& e.status == ConcreteTypeEnumStatus::User
    &&& if no_payloads(fields) {
        &&& c.align == 4
        &&& c.size == 4
        &&& e.kind matches ConcreteTypeEnumKind::Tag(tag)
        &&& tag.tags@ == fields.map_values(|f: PartialEnumField| f.name)
    } else {
        &&& c.align == max_nat(4, ua)
        &&& c.size == ceil_to(ceil_to(4, ua as int) + us, max_nat(4, ua) as int)
        &&& e.kind matches ConcreteTypeEnumKind::TaggedUnion(u)
        &&& u.union_offset == ceil_to(4, ua as int)
        &&& u.mappings@ == fields.map_values(|f: PartialEnumField| TaggedUnionField { name: f.name, ty: f.ty })
    }
}

/// `sym` is the layout of the declared shape `pt`.
pub open spec fn laid_out(tm: Seq<Option<TypeSymbol>>, pt: PartialType, sym: TypeSymbol) -> bool {
    match pt.kind {
        Some(PartialTypeKind::Struct { fields }) => struct_symbol_ok(tm, pt.name, fields@, sym),
        Some(PartialTypeKind::Enum { mappings }) => enum_symbol_ok(tm, pt.name, mappings@, sym),
        None => false,
    }
}

/// Every laid-out entry is concrete, with an alignment of 1, 4 or 8.
pub open spec fn tm_ok(tm: Seq<Option<TypeSymbol>>) -> bool {
    forall|i: int| 0 <= i < tm.len() ==> match #[trigger] tm[i] {
        Some(s) => match symbol_layout(s) {
            Some(l) => align_ok(l.0),
            None => false,
        },
        None => true,
    }
}

/// `tm2` keeps every entry of `tm1` that was laid out, and may lay out more.
pub open spec fn grows(tm1: Seq<Option<TypeSymbol>>, tm2: Seq<Option<TypeSymbol>>) -> bool {
    &&& tm2.len() == tm1.len()
    &&& forall|i: int| 0 <= i < tm1.len() && (#[trigger] tm1[i]) is Some ==> tm2[i] == tm1[i]
}

/// A field type that the pass can lay out or resolve.
pub open spec fn resolvable(table: Map<u32, PartialType>, tm: Seq<Option<TypeSymbol>>, ty: FieldType) -> bool {
    match ty {
        FieldType::Any => false,
        FieldType::Never => false,
        FieldType::Custom(v) => v.0 < tm.len() && (tm[v.0 as int] is Some || table.contains_key(v.0)),
        _ => true,
    }
}

pub open spec fn kind_resolvable(table: Map<u32, PartialType>, tm: Seq<Option<TypeSymbol>>, kind: PartialTypeKind) -> bool {
    match kind {
        PartialTypeKind::Struct { fields } => forall|i: int|
            0 <= i < fields@.len() ==> resolvable(table, tm, #[trigger] fields@[i].ty),
        PartialTypeKind::Enum { mappings } => forall|i: int|
            0 <= i < mappings@.len() ==> match #[trigger] mappings@[i].ty {
                Some(t) => resolvable(table, tm, t),
                None => true,
            },
    }
}

impl TypeBuilder {
    pub open spec fn table(&self) -> Map<u32, PartialType> {
        type_table_contents(self.types)
    }

    pub open spec fn uninit_set(&self) -> Set<u32> {
        Set::new(|k: u32| self.table().contains_key(k) && self.table()[k].process_state == ProcessingState::Uninit)
    }

    pub open spec fn uninit_count(&self) -> nat {
        self.uninit_set().len()
    }

    /// The builder can lay out its types into `tm`: every type it holds has
    /// an id in `tm`; every type not yet visited has its shape set, and the
    /// fields of that shape can be resolved; every type being visited that
    /// has no layout yet is on the stack.
    pub open spec fn ready(&self, tm: TypeMap) -> bool {
        &&& self.table().dom().finite()
        &&& tm_ok(tm.map@)
        &&& forall|k: u32| #[trigger] self.table().contains_key(k) ==> k < tm.map@.len()
        &&& forall|k: u32| #[trigger] self.table().contains_key(k)
            && self.table()[k].process_state == ProcessingState::Uninit ==> {
                &&& self.table()[k].kind is Some
                &&& kind_resolvable(self.table(), tm.map@, self.table()[k].kind.unwrap())
            }
        &&& forall|k: u32| #[trigger] self.table().contains_key(k)
            && self.table()[k].process_state == ProcessingState::Processing
            && tm.map@[k as int] is None ==> self.process_stack@.contains(self.table()[k].name)
    }
}


/// One call of the layout pass on `b1`/`tm1` leaves `b2`/`tm2`: laid-out
/// entries stay, the set of types and the stack stay, states only move
/// forward (unvisited, then visiting, then laid out or errored), and every
/// entry newly laid out is the layout of the shape declared for it.
pub open spec fn advances(b1: TypeBuilder, tm1: TypeMap, b2: TypeBuilder, tm2: TypeMap) -> bool {
    &&& grows(tm1.map@, tm2.map@)
    &&& b2.table().dom() == b1.table().dom()
    &&& b2.uninit_set().subset_of(b1.uninit_set())
    &&& forall|k: u32| #[trigger] b1.table().contains_key(k) ==> {
        &&& k < tm1.map@.len()
        &&& b2.table()[k].name == b1.table()[k].name
        &&& b2.table()[k].source == b1.table()[k].source
        &&& (b1.table()[k].process_state == ProcessingState::Errored
            ==> b2.table()[k].process_state == ProcessingState::Errored)
        &&& (b2.table()[k].process_state == ProcessingState::Uninit ==> b2.table()[k] == b1.table()[k])
        &&& (b2.table()[k].process_state == ProcessingState::Processing && tm2.map@[k as int] is None
            ==> b1.table()[k].process_state == ProcessingState::Processing)
    }
    &&& forall|k: int| 0 <= k < tm1.map@.len() && tm1.map@[k] is None && (#[trigger] tm2.map@[k]) is Some ==> {
        &&& b1.table().contains_key(k as u32)
        &&& b1.table()[k as u32].process_state == ProcessingState::Uninit
        &&& laid_out(tm2.map@, b1.table()[k as u32], tm2.map@[k].unwrap())
    }
}

proof fn lemma_field_layout_grows(tm1: Seq<Option<TypeSymbol>>, tm2: Seq<Option<TypeSymbol>>, ty: FieldType)
    requires
        grows(tm1, tm2),
        field_layout(tm1, ty) is Some,
    ensures
        field_layout(tm2, ty) == field_layout(tm1, ty),
{
    if let FieldType::Custom(v) = ty {
        assert(tm1[v.0 as int] is Some);
    }
}

proof fn lemma_union_grows(tm1: Seq<Option<TypeSymbol>>, tm2: Seq<Option<TypeSymbol>>, fields: Seq<PartialEnumField>)
    requires
        grows(tm1, tm2),
        payloads_laid_out(tm1, fields),
    ensures
        payloads_laid_out(tm2, fields),
        union_align(tm2, fields) == union_align(tm1, fields),
        union_size(tm2, fields) == union_size(tm1, fields),
    decreases fields.len(),
{
    assert forall|i: int| 0 <= i < fields.len() implies match #[trigger] fields[i].ty {
        Some(t) => field_layout(tm2, t) is Some,
        None => true,
    } by {
        if let Some(t) = fields[i].ty {
            lemma_field_layout_grows(tm1, tm2, t);
        }
    }
    if fields.len() > 0 {
        let rest = fields.drop_last();
        assert forall|i: int| 0 <= i < rest.len() implies match #[trigger] rest[i].ty {
            Some(t) => field_layout(tm1, t) is Some,
            None => true,
        } by {
            assert(rest[i] == fields[i]);
        }
        lemma_union_grows(tm1, tm2, rest);
        if let Some(t) = fields.last().ty {
            assert(fields[fields.len() - 1].ty == Some(t));
            lemma_field_layout_grows(tm1, tm2, t);
        }
    }
}

proof fn lemma_fields_grow(tm1: Seq<Option<TypeSymbol>>, tm2: Seq<Option<TypeSymbol>>, fields: Seq<PartialStructField>)
    requires
        grows(tm1, tm2),
        fields_laid_out(tm1, fields),
    ensures
        fields_laid_out(tm2, fields),
        field_layouts(tm2, fields) == field_layouts(tm1, fields),
{
    assert forall|i: int| 0 <= i < fields.len() implies #[trigger] field_layout(tm2, fields[i].ty) == field_layout(tm1, fields[i].ty) by {
        lemma_field_layout_grows(tm1, tm2, fields[i].ty);
    }
    assert(field_layouts(tm2, fields) =~= field_layouts(tm1, fields));
}

/// A layout stays a layout when more types are laid out.
proof fn lemma_laid_out_grows(tm1: Seq<Option<TypeSymbol>>, tm2: Seq<Option<TypeSymbol>>, pt: PartialType, sym: TypeSymbol)
    requires
        grows(tm1, tm2),
        laid_out(tm1, pt, sym),
    ensures
        laid_out(tm2, pt, sym),
{
    match pt.kind {
        Some(PartialTypeKind::Struct { fields }) => {
            lemma_fields_grow(tm1, tm2, fields@);
        },
        Some(PartialTypeKind::Enum { mappings }) => {
            lemma_union_grows(tm1, tm2, mappings@);
        },
        None => {},
    }
}

proof fn lemma_grows_trans(tm1: Seq<Option<TypeSymbol>>, tm2: Seq<Option<TypeSymbol>>, tm3: Seq<Option<TypeSymbol>>)
    requires
        grows(tm1, tm2),
        grows(tm2, tm3),
    ensures
        grows(tm1, tm3),
{
    assert forall|i: int| 0 <= i < tm1.len() && (#[trigger] tm1[i]) is Some implies tm3[i] == tm1[i] by {
        assert(tm2[i] == tm1[i]);
    }
}

proof fn lemma_advances_trans(
    b1: TypeBuilder, tm1: TypeMap, b2: TypeBuilder, tm2: TypeMap, b3: TypeBuilder, tm3: TypeMap,
)
    requires
        advances(b1, tm1, b2, tm2),
        advances(b2, tm2, b3, tm3),
    ensures
        advances(b1, tm1, b3, tm3),
{
    lemma_grows_trans(tm1.map@, tm2.map@, tm3.map@);
    assert forall|k: u32| #[trigger] b1.table().contains_key(k) implies {
        &&& k < tm1.map@.len()
        &&& b3.table()[k].name == b1.table()[k].name
        &&& b3.table()[k].source == b1.table()[k].source
        &&& (b1.table()[k].process_state == ProcessingState::Errored
            ==> b3.table()[k].process_state == ProcessingState::Errored)
        &&& (b3.table()[k].process_state == ProcessingState::Uninit ==> b3.table()[k] == b1.table()[k])
        &&& (b3.table()[k].process_state == ProcessingState::Processing && tm3.map@[k as int] is None
            ==> b1.table()[k].process_state == ProcessingState::Processing)
    } by {
        assert(b2.table().contains_key(k));
        if tm2.map@[k as int] is Some {
            assert(tm3.map@[k as int] == tm2.map@[k as int]);
        }
    }
    assert forall|k: int| 0 <= k < tm1.map@.len() && tm1.map@[k] is None && (#[trigger] tm3.map@[k]) is Some implies {
        &&& b1.table().contains_key(k as u32)
        &&& b1.table()[k as u32].process_state == ProcessingState::Uninit
        &&& laid_out(tm3.map@, b1.table()[k as u32], tm3.map@[k].unwrap())
    } by {
        if tm2.map@[k] is Some {
            lemma_laid_out_grows(tm2.map@, tm3.map@, b1.table()[k as u32], tm2.map@[k].unwrap());
            assert(tm3.map@[k] == tm2.map@[k]);
        } else {
            assert(b2.table().contains_key(k as u32));
            assert(b2.table()[k as u32].process_state == ProcessingState::Uninit);
        }
    }
}

proof fn lemma_advances_refl(b: TypeBuilder, tm: TypeMap)
    requires
        b.ready(tm),
    ensures
        advances(b, tm, b, tm),
{
    assert(b.uninit_set().subset_of(b.uninit_set()));
}


proof fn lemma_uninit_finite(b: TypeBuilder)
    requires
        b.table().dom().finite(),
    ensures
        b.uninit_set().finite(),
        b.uninit_set().subset_of(b.table().dom()),
{
    vstd::set_lib::lemma_len_subset(b.uninit_set(), b.table().dom());
}

proof fn lemma_uninit_le(b1: TypeBuilder, b2: TypeBuilder)
    requires
        b1.table().dom().finite(),
        b2.uninit_set().subset_of(b1.uninit_set()),
    ensures
        b2.uninit_count() <= b1.uninit_count(),
{
    lemma_uninit_finite(b1);
    vstd::set_lib::lemma_len_subset(b2.uninit_set(), b1.uninit_set());
}

proof fn lemma_struct_offset_push(ls: Seq<(nat, nat)>, x: (nat, nat), j: int)
    requires
        0 <= j < ls.len(),
    ensures
        struct_offset(ls.push(x), j) == struct_offset(ls, j),
{
    assert(ls.push(x).take(j) =~= ls.take(j));
}

/// The first position of `name` on `stack`.
pub open spec fn first_index(stack: Seq<StringIndex>, name: StringIndex, i: int) -> bool {
    &&& 0 <= i < stack.len()
    &&& stack[i] == name
    &&& forall|j: int| 0 <= j < i ==> stack[j] != name
}

/// The part of `stack` from the first occurrence of `name` on.
fn backtrace_from(stack: &Vec<StringIndex>, name: StringIndex) -> (r: Vec<StringIndex>)
    requires
        stack@.contains(name),
    ensures
        exists|i: int| first_index(stack@, name, i) && r@ == stack@.skip(i),
{
    let n = stack.len();
    let mut i: usize = 0;
    while stack[i] != name
        invariant
            0 <= i < stack@.len(),
            n == stack@.len(),
            stack@.contains(name),
            forall|j: int| 0 <= j < i ==> stack@[j] != name,
            exists|k: int| i <= k < stack@.len() && stack@[k] == name,
        decreases stack@.len() - i,
    {
        proof {
            let k = choose|k: int| i <= k < stack@.len() && stack@[k] == name;
            assert(k > i);
        }
        i = i + 1;
    }
    let start = i;
    let mut r: Vec<StringIndex> = Vec::new();
    let mut k: usize = start;
    while k < stack.len()
        invariant
            start <= k <= stack@.len(),
            r@ == stack@.subrange(start as int, k as int),
        decreases stack@.len() - k,
    {
        r.push(stack[k]);
        k = k + 1;
        assert(r@ =~= stack@.subrange(start as int, k as int));
    }
    assert(first_index(stack@, name, start as int));
    assert(r@ =~= stack@.skip(start as int));
    r
}

/// The size of a struct with these fields fits in a `usize`.
pub open spec fn struct_fits(tm: Seq<Option<TypeSymbol>>, fields: Seq<PartialStructField>) -> bool {
    let ls = field_layouts(tm, fields);
    ceil_to(struct_cursor(ls), struct_align(ls) as int) <= usize::MAX
}

/// The size of an enum with these variants fits in a `usize`.
pub open spec fn enum_fits(tm: Seq<Option<TypeSymbol>>, fields: Seq<PartialEnumField>) -> bool {
    let ua = union_align(tm, fields);
    no_payloads(fields) || ceil_to(ceil_to(4, ua as int) + union_size(tm, fields), max_nat(4, ua) as int) <= usize::MAX
}

/// Every alignment in `ls` is positive.
pub open spec fn aligns_pos(ls: Seq<(nat, nat)>) -> bool {
    forall|j: int| 0 <= j < ls.len() ==> (#[trigger] ls[j]).0 >= 1
}

proof fn lemma_ceil_ge(x: int, n: int)
    requires
        x >= 0,
        n >= 1,
    ensures
        ceil_to(x, n) >= x,
{
    assert(ceil_to(x, n) >= x) by (nonlinear_arith)
        requires
            n >= 1,
            x >= 0,
    {
        let q = (x + n - 1) / n;
        assert(x + n - 1 < q * n + n);
    }
}

proof fn lemma_cursor_mono(ls: Seq<(nat, nat)>, k: int)
    requires
        aligns_pos(ls),
        0 <= k <= ls.len(),
    ensures
        0 <= struct_cursor(ls.take(k)) <= struct_cursor(ls),
    decreases ls.len(),
{
    if k == ls.len() {
        assert(ls.take(k) =~= ls);
        if ls.len() > 0 {
            lemma_cursor_mono(ls.drop_last(), 0);
            assert(ls[ls.len() - 1].0 >= 1);
            lemma_ceil_ge(struct_cursor(ls.drop_last()), ls.last().0 as int);
        }
    } else {
        let rest = ls.drop_last();
        assert forall|j: int| 0 <= j < rest.len() implies (#[trigger] rest[j]).0 >= 1 by {
            assert(rest[j] == ls[j]);
        }
        lemma_cursor_mono(rest, k);
        assert(rest.take(k) =~= ls.take(k));
        lemma_cursor_mono(rest, rest.len() as int);
        assert(rest.take(rest.len() as int) =~= rest);
        assert(ls[ls.len() - 1].0 >= 1);
        lemma_ceil_ge(struct_cursor(rest), ls.last().0 as int);
    }
}

proof fn lemma_struct_align_pos(ls: Seq<(nat, nat)>)
    ensures
        struct_align(ls) >= 1,
    decreases ls.len(),
{
    if ls.len() > 0 {
        lemma_struct_align_pos(ls.drop_last());
    }
}

proof fn lemma_layout_align(tm: Seq<Option<TypeSymbol>>, ty: FieldType)
    requires
        tm_ok(tm),
        field_layout(tm, ty) is Some,
    ensures
        align_ok(field_layout(tm, ty).unwrap().0),
{
    if let FieldType::Custom(v) = ty {
        assert(tm[v.0 as int] is Some);
    }
}

/// When the end of the first `k` fields already passes `usize::MAX`, the
/// struct does not fit.
proof fn lemma_struct_overflow(tm: Seq<Option<TypeSymbol>>, fields: Seq<PartialStructField>, k: int)
    requires
        tm_ok(tm),
        fields_laid_out(tm, fields),
        0 <= k <= fields.len(),
        struct_cursor(field_layouts(tm, fields.take(k))) > usize::MAX,
    ensures
        !struct_fits(tm, fields),
{
    let ls = field_layouts(tm, fields);
    assert(ls.take(k) =~= field_layouts(tm, fields.take(k)));
    assert forall|j: int| 0 <= j < ls.len() implies (#[trigger] ls[j]).0 >= 1 by {
        assert(field_layout(tm, fields[j].ty) is Some);
        lemma_layout_align(tm, fields[j].ty);
    }
    lemma_cursor_mono(ls, k);
    lemma_struct_align_pos(ls);
    lemma_ceil_ge(struct_cursor(ls), struct_align(ls) as int);
}

/// The declared shape `s` holds the type with raw id `v` by value.
pub open spec fn shape_refs(s: PartialTypeKind, v: u32) -> bool {
    match s {
        PartialTypeKind::Struct { fields } => exists|j: int| 0 <= j < fields@.len()
            && (#[trigger] fields@[j]).ty == FieldType::Custom(TypeId(v)),
        PartialTypeKind::Enum { mappings } => exists|j: int| 0 <= j < mappings@.len()
            && (#[trigger] mappings@[j]).ty == Some(FieldType::Custom(TypeId(v))),
    }
}

/// A type named `x`, not yet visited, declares a field of a type named `y`.
pub open spec fn edge(b: TypeBuilder, x: StringIndex, y: StringIndex) -> bool {
    exists|k1: u32, k2: u32| #[trigger] b.table().contains_key(k1) && #[trigger] b.table().contains_key(k2)
        && b.table()[k1].process_state == ProcessingState::Uninit
        && b.table()[k1].name == x
        && b.table()[k1].kind is Some
        && shape_refs(b.table()[k1].kind->Some_0, k2)
        && b.table()[k2].name == y
}

/// Each name in `p` declares a field of a type named by the next one.
pub open spec fn chain(b: TypeBuilder, p: Seq<StringIndex>) -> bool
    decreases p.len(),
{
    p.len() <= 1 || (edge(b, p[0], p[1]) && chain(b, p.drop_first()))
}

/// `p` is the path of types the walk from the type named `start` entered
/// (empty when that type was itself being laid out), and the cyclic error
/// names the type `name` met again, with the backtrace `bt` of the walk
/// from `name`'s first place on `stack` followed by `p`.
pub open spec fn cycle_witness(
    b: TypeBuilder, stack: Seq<StringIndex>, start: StringIndex,
    name: StringIndex, bt: Seq<StringIndex>, p: Seq<StringIndex>, i: int,
) -> bool {
    &&& if p.len() == 0 {
        name == start
    } else {
        &&& p[0] == start
        &&& chain(b, p)
        &&& edge(b, p.last(), name)
    }
    &&& first_index(stack + p, name, i)
    &&& bt == (stack + p).skip(i)
}

/// The struct overflows: the fields up to some point are laid out and
/// already end past `usize::MAX`, or all are laid out and the rounded size
/// does not fit.
pub open spec fn struct_overflows(tm: Seq<Option<TypeSymbol>>, fields: Seq<PartialStructField>) -> bool {
    ||| exists|k: int| 0 < k <= fields.len() && #[trigger] fields_laid_out(tm, fields.take(k))
        && struct_cursor(field_layouts(tm, fields.take(k))) > usize::MAX
    ||| fields_laid_out(tm, fields) && !struct_fits(tm, fields)
}

pub open spec fn shape_overflows(tm: Seq<Option<TypeSymbol>>, s: PartialTypeKind) -> bool {
    match s {
        PartialTypeKind::Struct { fields } => struct_overflows(tm, fields@),
        PartialTypeKind::Enum { mappings } => payloads_laid_out(tm, mappings@) && !enum_fits(tm, mappings@),
    }
}

/// Why a walk that started in `b`/`tm`, on a type named `start` with
/// `stack` on the stack, can fail with `e`, given the types laid out in
/// `tm_f` at its end: `Bypass` needs a type that had failed before and has
/// no layout; `SizeOverflow` a declared shape, not yet visited, whose size
/// does not fit; `CyclicType` a path of declared fields from `start` back
/// to a type on the walk, which the backtrace lists.
pub open spec fn error_cause(
    b: TypeBuilder, tm: TypeMap, stack: Seq<StringIndex>, start: StringIndex,
    tm_f: Seq<Option<TypeSymbol>>, e: LayoutError,
) -> bool {
    match e {
        LayoutError::Bypass => exists|k: u32| #[trigger] b.table().contains_key(k)
            && b.table()[k].process_state == ProcessingState::Errored && tm.map@[k as int] is None,
        LayoutError::SizeOverflow => exists|k: u32| #[trigger] b.table().contains_key(k)
            && b.table()[k].process_state == ProcessingState::Uninit
            && b.table()[k].kind is Some && shape_overflows(tm_f, b.table()[k].kind->Some_0),
        LayoutError::CyclicType { source, backtrace, name } => exists|p: Seq<StringIndex>, i: int|
            #[trigger] cycle_witness(b, stack, start, name, backtrace@, p, i),
    }
}

/// No type failed between `b1` and `b2`.
pub open spec fn no_new_errors(b1: TypeBuilder, b2: TypeBuilder) -> bool {
    forall|k: u32| #[trigger] b2.table().contains_key(k) && b2.table()[k].process_state == ProcessingState::Errored
        ==> b1.table()[k].process_state == ProcessingState::Errored
}

proof fn lemma_edge_back(b1: TypeBuilder, tm1: TypeMap, b2: TypeBuilder, tm2: TypeMap, x: StringIndex, y: StringIndex)
    requires
        advances(b1, tm1, b2, tm2),
        edge(b2, x, y),
    ensures
        edge(b1, x, y),
{
    let (k1, k2) = choose|k1: u32, k2: u32| #[trigger] b2.table().contains_key(k1) && #[trigger] b2.table().contains_key(k2)
        && b2.table()[k1].process_state == ProcessingState::Uninit
        && b2.table()[k1].name == x
        && b2.table()[k1].kind is Some
        && shape_refs(b2.table()[k1].kind->Some_0, k2)
        && b2.table()[k2].name == y;
    assert(b1.table().contains_key(k1) && b1.table().contains_key(k2));
    assert(b1.table()[k1] == b2.table()[k1]);
}

proof fn lemma_chain_back(b1: TypeBuilder, tm1: TypeMap, b2: TypeBuilder, tm2: TypeMap, p: Seq<StringIndex>)
    requires
        advances(b1, tm1, b2, tm2),
        chain(b2, p),
    ensures
        chain(b1, p),
    decreases p.len(),
{
    if p.len() > 1 {
        lemma_edge_back(b1, tm1, b2, tm2, p[0], p[1]);
        lemma_chain_back(b1, tm1, b2, tm2, p.drop_first());
    }
}

proof fn lemma_overflow_grows(tm1: Seq<Option<TypeSymbol>>, tm2: Seq<Option<TypeSymbol>>, s: PartialTypeKind)
    requires
        grows(tm1, tm2),
        shape_overflows(tm1, s),
    ensures
        shape_overflows(tm2, s),
{
    match s {
        PartialTypeKind::Struct { fields } => {
            let fs = fields@;
            if exists|k: int| 0 < k <= fs.len() && #[trigger] fields_laid_out(tm1, fs.take(k))
                && struct_cursor(field_layouts(tm1, fs.take(k))) > usize::MAX {
                let k = choose|k: int| 0 < k <= fs.len() && #[trigger] fields_laid_out(tm1, fs.take(k))
                    && struct_cursor(field_layouts(tm1, fs.take(k))) > usize::MAX;
                lemma_fields_grow(tm1, tm2, fs.take(k));
            } else {
                lemma_fields_grow(tm1, tm2, fs);
            }
        },
        PartialTypeKind::Enum { mappings } => {
            lemma_union_grows(tm1, tm2, mappings@);
        },
    }
}

/// A cause found in a later state of the same walk, where no type failed
/// in between, is a cause in the earlier state.
proof fn lemma_cause_back(
    b1: TypeBuilder, tm1: TypeMap, b2: TypeBuilder, tm2: TypeMap,
    stack: Seq<StringIndex>, start: StringIndex, tm_f: Seq<Option<TypeSymbol>>, e: LayoutError,
)
    requires
        advances(b1, tm1, b2, tm2),
        no_new_errors(b1, b2),
        error_cause(b2, tm2, stack, start, tm_f, e),
    ensures
        error_cause(b1, tm1, stack, start, tm_f, e),
{
    match e {
        LayoutError::Bypass => {
            let k = choose|k: u32| #[trigger] b2.table().contains_key(k)
                && b2.table()[k].process_state == ProcessingState::Errored && tm2.map@[k as int] is None;
            assert(b1.table().contains_key(k));
            if tm1.map@[k as int] is Some {
                assert(tm2.map@[k as int] == tm1.map@[k as int]);
            }
        },
        LayoutError::SizeOverflow => {
            let k = choose|k: u32| #[trigger] b2.table().contains_key(k)
                && b2.table()[k].process_state == ProcessingState::Uninit
                && b2.table()[k].kind is Some && shape_overflows(tm_f, b2.table()[k].kind->Some_0);
            assert(b1.table().contains_key(k));
            assert(b1.table()[k] == b2.table()[k]);
        },
        LayoutError::CyclicType { source, backtrace, name } => {
            let (p, i) = choose|p: Seq<StringIndex>, i: int|
                #[trigger] cycle_witness(b2, stack, start, name, backtrace@, p, i);
            if p.len() > 0 {
                lemma_chain_back(b1, tm1, b2, tm2, p);
                lemma_edge_back(b1, tm1, b2, tm2, p.last(), name);
            }
            assert(cycle_witness(b1, stack, start, name, backtrace@, p, i));
        },
    }
}

/// The cause of an overflow stays one when more types are laid out.
proof fn lemma_cause_grows(
    b: TypeBuilder, tm: TypeMap, stack: Seq<StringIndex>, start: StringIndex,
    tm1: Seq<Option<TypeSymbol>>, tm2: Seq<Option<TypeSymbol>>, e: LayoutError,
)
    requires
        grows(tm1, tm2),
        error_cause(b, tm, stack, start, tm1, e),
    ensures
        error_cause(b, tm, stack, start, tm2, e),
{
    if e is SizeOverflow {
        let k = choose|k: u32| #[trigger] b.table().contains_key(k)
            && b.table()[k].process_state == ProcessingState::Uninit
            && b.table()[k].kind is Some && shape_overflows(tm1, b.table()[k].kind->Some_0);
        lemma_overflow_grows(tm1, tm2, b.table()[k].kind->Some_0);
    }
}

/// `b1` is `b0` with the unvisited type `ty` marked as being visited.
pub open spec fn marks_visiting(b0: TypeBuilder, b1: TypeBuilder, ty: u32) -> bool {
    &&& b0.table().contains_key(ty)
    &&& b0.table()[ty].process_state == ProcessingState::Uninit
    &&& b1.table() == b0.table().insert(ty, PartialType {
        name: b0.table()[ty].name,
        source: b0.table()[ty].source,
        process_state: ProcessingState::Processing,
        kind: None,
    })
}

proof fn lemma_edge_unmark(b0: TypeBuilder, b1: TypeBuilder, ty: u32, x: StringIndex, y: StringIndex)
    requires
        marks_visiting(b0, b1, ty),
        edge(b1, x, y),
    ensures
        edge(b0, x, y),
{
    let (k1, k2) = choose|k1: u32, k2: u32| #[trigger] b1.table().contains_key(k1) && #[trigger] b1.table().contains_key(k2)
        && b1.table()[k1].process_state == ProcessingState::Uninit
        && b1.table()[k1].name == x
        && b1.table()[k1].kind is Some
        && shape_refs(b1.table()[k1].kind->Some_0, k2)
        && b1.table()[k2].name == y;
    assert(k1 != ty);
    assert(b0.table().contains_key(k1) && b0.table().contains_key(k2));
    assert(b0.table()[k2].name == y);
}

proof fn lemma_chain_unmark(b0: TypeBuilder, b1: TypeBuilder, ty: u32, p: Seq<StringIndex>)
    requires
        marks_visiting(b0, b1, ty),
        chain(b1, p),
    ensures
        chain(b0, p),
    decreases p.len(),
{
    if p.len() > 1 {
        lemma_edge_unmark(b0, b1, ty, p[0], p[1]);
        lemma_chain_unmark(b0, b1, ty, p.drop_first());
    }
}

/// An error of a field `v` of the type `ty` being visited is an error of
/// the walk from `ty`.
proof fn lemma_cause_lift(
    b0: TypeBuilder, tm0: TypeMap, b1: TypeBuilder, ty: u32, v: u32,
    tm_f: Seq<Option<TypeSymbol>>, e: LayoutError,
)
    requires
        marks_visiting(b0, b1, ty),
        b0.table()[ty].kind is Some,
        shape_refs(b0.table()[ty].kind->Some_0, v),
        b0.table().contains_key(v),
        error_cause(b1, tm0, b0.process_stack@.push(b0.table()[ty].name), b1.table()[v].name, tm_f, e),
    ensures
        error_cause(b0, tm0, b0.process_stack@, b0.table()[ty].name, tm_f, e),
{
    let name = b0.table()[ty].name;
    let stack0 = b0.process_stack@;
    assert(b1.table()[v].name == b0.table()[v].name);
    assert(edge(b0, name, b0.table()[v].name)) by {
        assert(b0.table().contains_key(ty) && b0.table().contains_key(v));
    }
    match e {
        LayoutError::Bypass => {
            let k = choose|k: u32| #[trigger] b1.table().contains_key(k)
                && b1.table()[k].process_state == ProcessingState::Errored && tm0.map@[k as int] is None;
            assert(k != ty);
            assert(b0.table().contains_key(k));
        },
        LayoutError::SizeOverflow => {
            let k = choose|k: u32| #[trigger] b1.table().contains_key(k)
                && b1.table()[k].process_state == ProcessingState::Uninit
                && b1.table()[k].kind is Some && shape_overflows(tm_f, b1.table()[k].kind->Some_0);
            assert(k != ty);
            assert(b0.table().contains_key(k));
        },
        LayoutError::CyclicType { source, backtrace, name: n } => {
            let (p1, i) = choose|p: Seq<StringIndex>, i: int|
                #[trigger] cycle_witness(b1, stack0.push(name), b0.table()[v].name, n, backtrace@, p, i);
            let p = seq![name] + p1;
            assert(stack0.push(name) + p1 =~= stack0 + p);
            assert(p.drop_first() =~= p1);
            if p1.len() > 0 {
                lemma_chain_unmark(b0, b1, ty, p1);
                lemma_edge_unmark(b0, b1, ty, p1.last(), n);
                assert(p.last() == p1.last());
                assert(p[1] == p1[0]);
            } else {
                assert(p.len() == 1);
            }
            assert(cycle_witness(b0, stack0, name, n, backtrace@, p, i));
        },
    }
}

/// What an error of the layout pass tells: a cycle names a type of the
/// builder, which has failed, and lists the types on the cycle starting
/// with that one.
pub open spec fn error_ok(b: TypeBuilder, e: LayoutError) -> bool {
    match e {
        LayoutError::CyclicType { source, backtrace, name } => {
            &&& backtrace@.len() > 0
            &&& backtrace@[0] == name
            &&& exists|k: u32| #[trigger] b.table().contains_key(k) && b.table()[k].name == name
                && b.table()[k].source == source
                && b.table()[k].process_state == ProcessingState::Errored
        },
        _ => true,
    }
}

/// What an error tells stays true while the pass goes on.
proof fn lemma_error_ok_advances(b1: TypeBuilder, tm1: TypeMap, b2: TypeBuilder, tm2: TypeMap, e: LayoutError)
    requires
        advances(b1, tm1, b2, tm2),
        error_ok(b1, e),
    ensures
        error_ok(b2, e),
{
    if let LayoutError::CyclicType { source, backtrace, name } = e {
        let k = choose|k: u32| #[trigger] b1.table().contains_key(k) && b1.table()[k].name == name
            && b1.table()[k].source == source
            && b1.table()[k].process_state == ProcessingState::Errored;
        assert(b2.table().contains_key(k));
    }
}

fn layout_of(sym: &TypeSymbol) -> (r: (usize, usize))
    requires
        symbol_layout(*sym) is Some,
    ensures
        symbol_layout(*sym) == Some((r.0 as nat, r.1 as nat)),
{
    match &sym.kind {
        TypeSymbolKind::Concrete(c) => (c.align, c.size),
        _ => (1, 0),
    }
}

impl TypeBuilder {
    pub fn new() -> (r: Self)
        ensures
            r.table() == Map::<u32, PartialType>::empty(),
            r.process_stack@.len() == 0,
    {
        TypeBuilder { types: TypeTable::new(), process_stack: Vec::new() }
    }

    /// Adds a type whose shape is set later.
    pub fn add_ty(&mut self, ty: TypeId, name: StringIndex, source: SourceRange)
        requires
            !old(self).table().contains_key(ty.0),
        ensures
            final(self).table() == old(self).table().insert(
                ty.0,
                PartialType { name, source, process_state: ProcessingState::Uninit, kind: None },
            ),
            final(self).process_stack@ == old(self).process_stack@,
    {
        let pty = PartialType { name, source, process_state: ProcessingState::Uninit, kind: None };
        let _ = self.types.insert(ty.0, pty);
    }

    fn set_kind(&mut self, ty: TypeId, kind: PartialTypeKind)
        requires
            old(self).table().contains_key(ty.0),
            old(self).table()[ty.0].kind is None,
        ensures
            final(self).table() == old(self).table().insert(
                ty.0,
                PartialType {
                    name: old(self).table()[ty.0].name,
                    source: old(self).table()[ty.0].source,
                    process_state: old(self).table()[ty.0].process_state,
                    kind: Some(kind),
                },
            ),
            final(self).process_stack@ == old(self).process_stack@,
    {
        let pt = self.types.remove(ty.0).unwrap();
        let PartialType { name, source, process_state, kind: _ } = pt;
        let _ = self.types.insert(ty.0, PartialType { name, source, process_state, kind: Some(kind) });
        assert(self.table() =~= old(self).table().insert(
            ty.0,
            PartialType { name, source, process_state, kind: Some(kind) },
        ));
    }

    /// Declares a type added with `add_ty` to be a struct with these fields.
    pub fn set_struct_fields(&mut self, ty: TypeId, fields: Vec<(StringIndex, FieldType)>)
        requires
            old(self).table().contains_key(ty.0),
            old(self).table()[ty.0].kind is None,
        ensures
            final(self).table().dom() == old(self).table().dom(),
            final(self).table()[ty.0].name == old(self).table()[ty.0].name,
            final(self).table()[ty.0].process_state == old(self).table()[ty.0].process_state,
            final(self).table()[ty.0].kind matches Some(PartialTypeKind::Struct { fields: fs })
                && fs@ == fields@.map_values(|f: (StringIndex, FieldType)| PartialStructField { name: f.0, ty: f.1 }),
            forall|k: u32| k != ty.0 && #[trigger] old(self).table().contains_key(k)
                ==> final(self).table()[k] == old(self).table()[k],
            final(self).process_stack@ == old(self).process_stack@,
    {
        let mut fs: Vec<PartialStructField> = Vec::new();
        let mut i: usize = 0;
        while i < fields.len()
            invariant
                0 <= i <= fields@.len(),
                fs@ == fields@.take(i as int).map_values(|f: (StringIndex, FieldType)| PartialStructField { name: f.0, ty: f.1 }),
            decreases fields@.len() - i,
        {
            let (name, ty) = fields[i];
            fs.push(PartialStructField { name, ty });
            i = i + 1;
            assert(fs@ =~= fields@.take(i as int).map_values(|f: (StringIndex, FieldType)| PartialStructField { name: f.0, ty: f.1 }));
        }
        assert(fields@.take(i as int) =~= fields@);
        self.set_kind(ty, PartialTypeKind::Struct { fields: fs });
    }

    /// Declares a type added with `add_ty` to be an enum with these variants.
    pub fn set_enum_fields(&mut self, ty: TypeId, fields: Vec<(StringIndex, Option<FieldType>)>)
        requires
            old(self).table().contains_key(ty.0),
            old(self).table()[ty.0].kind is None,
        ensures
            final(self).table().dom() == old(self).table().dom(),
            final(self).table()[ty.0].name == old(self).table()[ty.0].name,
            final(self).table()[ty.0].process_state == old(self).table()[ty.0].process_state,
            final(self).table()[ty.0].kind matches Some(PartialTypeKind::Enum { mappings: ms })
                && ms@ == fields@.map_values(|f: (StringIndex, Option<FieldType>)| PartialEnumField { name: f.0, ty: f.1 }),
            forall|k: u32| k != ty.0 && #[trigger] old(self).table().contains_key(k)
                ==> final(self).table()[k] == old(self).table()[k],
            final(self).process_stack@ == old(self).process_stack@,
    {
        let mut ms: Vec<PartialEnumField> = Vec::new();
        let mut i: usize = 0;
        while i < fields.len()
            invariant
                0 <= i <= fields@.len(),
                ms@ == fields@.take(i as int).map_values(|f: (StringIndex, Option<FieldType>)| PartialEnumField { name: f.0, ty: f.1 }),
            decreases fields@.len() - i,
        {
            let (name, ty) = fields[i];
            ms.push(PartialEnumField { name, ty });
            i = i + 1;
            assert(ms@ =~= fields@.take(i as int).map_values(|f: (StringIndex, Option<FieldType>)| PartialEnumField { name: f.0, ty: f.1 }));
        }
        assert(fields@.take(i as int) =~= fields@);
        self.set_kind(ty, PartialTypeKind::Enum { mappings: ms });
    }
}


impl TypeBuilder {
    /// The alignment of a field type; a custom type is laid out first.
    fn align(&mut self, tm: &mut TypeMap, ty: FieldType) -> (r: Result<usize, LayoutError>)
        requires
            old(self).ready(*old(tm)),
            resolvable(old(self).table(), old(tm).map@, ty),
        ensures
            final(self).ready(*final(tm)),
            advances(*old(self), *old(tm), *final(self), *final(tm)),
            final(self).process_stack@ == old(self).process_stack@,
            r matches Ok(a) ==> (field_layout(final(tm).map@, ty) matches Some(l) && l.0 == a),
            field_layout(old(tm).map@, ty) matches Some(l) ==> r == Ok::<usize, LayoutError>(l.0 as usize),
            r is Err ==> (ty matches FieldType::Custom(v)
                && final(tm).map@[v.0 as int] is None
                && final(self).table()[v.0].process_state == ProcessingState::Errored),
            r matches Err(e) ==> error_ok(*final(self), e),
            r is Ok ==> no_new_errors(*old(self), *final(self)),
            r is Err ==> (ty is Custom && old(self).table().contains_key(ty->Custom_0.0)
                && error_cause(*old(self), *old(tm), old(self).process_stack@,
                    old(self).table()[ty->Custom_0.0].name, final(tm).map@, r->Err_0)),
        decreases old(self).uninit_count() * 3 + 1,
    {
        match ty {
            FieldType::I64 => {
                proof { lemma_advances_refl(*self, *tm); }
                Ok(8)
            },
            FieldType::I32 => {
                proof { lemma_advances_refl(*self, *tm); }
                Ok(4)
            },
            FieldType::F64 => {
                proof { lemma_advances_refl(*self, *tm); }
                Ok(8)
            },
            FieldType::Unit => {
                proof { lemma_advances_refl(*self, *tm); }
                Ok(1)
            },
            FieldType::Error => {
                proof { lemma_advances_refl(*self, *tm); }
                Ok(1)
            },
            FieldType::Custom(v) => {
                match self.resolve_type(tm, v) {
                    Ok(l) => Ok(l.0),
                    Err(e) => Err(e),
                }
            },
            _ => {
                proof { assert(false); }
                Err(LayoutError::Bypass)
            },
        }
    }

    /// The size of a field type; a custom type is laid out first.
    fn size(&mut self, tm: &mut TypeMap, ty: FieldType) -> (r: Result<usize, LayoutError>)
        requires
            old(self).ready(*old(tm)),
            resolvable(old(self).table(), old(tm).map@, ty),
        ensures
            final(self).ready(*final(tm)),
            advances(*old(self), *old(tm), *final(self), *final(tm)),
            final(self).process_stack@ == old(self).process_stack@,
            r matches Ok(z) ==> (field_layout(final(tm).map@, ty) matches Some(l) && l.1 == z),
            field_layout(old(tm).map@, ty) is Some ==> r is Ok,
            r is Ok ==> no_new_errors(*old(self), *final(self)),
        decreases old(self).uninit_count() * 3 + 1,
    {
        match ty {
            FieldType::I64 => {
                proof { lemma_advances_refl(*self, *tm); }
                Ok(8)
            },
            FieldType::I32 => {
                proof { lemma_advances_refl(*self, *tm); }
                Ok(4)
            },
            FieldType::F64 => {
                proof { lemma_advances_refl(*self, *tm); }
                Ok(8)
            },
            FieldType::Unit => {
                proof { lemma_advances_refl(*self, *tm); }
                Ok(1)
            },
            FieldType::Error => {
                proof { lemma_advances_refl(*self, *tm); }
                Ok(0)
            },
            FieldType::Custom(v) => {
                match self.resolve_type(tm, v) {
                    Ok(l) => Ok(l.1),
                    Err(e) => Err(e),
                }
            },
            _ => {
                proof { assert(false); }
                Err(LayoutError::Bypass)
            },
        }
    }

    /// Lays out `ty` and records it in `tm`, laying out first the types
    /// that its fields hold by value. A type met again while it is being
    /// laid out contains itself: it is marked errored and reported as
    /// cyclic; a type that failed before reports `Bypass`. An error of a
    /// field is handed on unchanged. It fails only for a cause that
    /// `error_cause` names: a type that failed before, a declared shape
    /// whose size does not fit, or a path of declared fields back to a type
    /// on the walk; otherwise `ty` is laid out.
    fn resolve_type(&mut self, tm: &mut TypeMap, ty: TypeId) -> (r: Result<(usize, usize), LayoutError>)
        requires
            old(self).ready(*old(tm)),
            ty.0 < old(tm).map@.len(),
            old(tm).map@[ty.0 as int] is Some || old(self).table().contains_key(ty.0),
        ensures
            final(self).ready(*final(tm)),
            advances(*old(self), *old(tm), *final(self), *final(tm)),
            final(self).process_stack@ == old(self).process_stack@,
            r matches Ok(l) ==> (final(tm).map@[ty.0 as int] matches Some(s)
                && symbol_layout(s) == Some((l.0 as nat, l.1 as nat))),
            r is Err ==> {
                &&& final(tm).map@[ty.0 as int] is None
                &&& final(self).table()[ty.0].process_state == ProcessingState::Errored
            },
            old(tm).map@[ty.0 as int] is Some ==> r is Ok,
            r matches Err(e) ==> error_ok(*final(self), e),
            r is Ok ==> no_new_errors(*old(self), *final(self)),
            r is Err ==> error_cause(*old(self), *old(tm), old(self).process_stack@,
                old(self).table()[ty.0].name, final(tm).map@, r->Err_0),
            old(tm).map@[ty.0 as int] is None && old(self).table()[ty.0].process_state == ProcessingState::Errored
                ==> (r matches Err(e) && e is Bypass),
            old(tm).map@[ty.0 as int] is None && old(self).table()[ty.0].process_state == ProcessingState::Processing
                ==> (r matches Err(LayoutError::CyclicType { source, backtrace, name })
                    && source == old(self).table()[ty.0].source
                    && name == old(self).table()[ty.0].name),
            old(tm).map@[ty.0 as int] is None && old(self).table()[ty.0].process_state == ProcessingState::Processing
                ==> (r is Err && r->Err_0 is CyclicType
                    && exists|i: int| #[trigger] first_index(old(self).process_stack@, r->Err_0->CyclicType_name, i)
                        && r->Err_0->CyclicType_backtrace@ == old(self).process_stack@.skip(i)),
        decreases old(self).uninit_count() * 3,
    {
        if let Some(sym) = tm.get_opt(ty) {
            let l = layout_of(sym);
            proof { lemma_advances_refl(*self, *tm); }
            return Ok(l);
        }
        let ghost b0 = *self;
        let ghost tm0 = *tm;
        let pt = self.types.remove(ty.0).unwrap();
        let PartialType { name, source, process_state, kind } = pt;
        match process_state {
            ProcessingState::Processing => {
                let _ = self.types.insert(
                    ty.0,
                    PartialType { name, source, process_state: ProcessingState::Errored, kind },
                );
                proof {
                    assert(self.table() =~= b0.table().insert(
                        ty.0,
                        PartialType { name, source, process_state: ProcessingState::Errored, kind },
                    ));
                    assert(self.uninit_set() =~= b0.uninit_set());
                    assert(b0.process_stack@.contains(name));
                }
                let backtrace = backtrace_from(&self.process_stack, name);
                let ghost bt = backtrace@;
                proof {
                    assert(self.process_stack@ == old(self).process_stack@);
                    assert(b0.table()[ty.0].name == name);
                    assert(b0.table()[ty.0].source == source);
                    let i = choose|i: int| first_index(self.process_stack@, name, i) && backtrace@ == self.process_stack@.skip(i);
                    assert(first_index(old(self).process_stack@, name, i) && backtrace@ == old(self).process_stack@.skip(i));
                    assert(exists|i: int| #[trigger] first_index(old(self).process_stack@, name, i)
                        && backtrace@ == old(self).process_stack@.skip(i));
                    assert(self.table().contains_key(ty.0));
                }
                let err = LayoutError::CyclicType { source, backtrace, name };
                proof {
                    assert(err->CyclicType_name == name);
                    assert(err->CyclicType_backtrace@ == bt);
                    let i = choose|i: int| #[trigger] first_index(old(self).process_stack@, name, i)
                        && bt == old(self).process_stack@.skip(i);
                    assert(first_index(old(self).process_stack@, err->CyclicType_name, i)
                        && err->CyclicType_backtrace@ == old(self).process_stack@.skip(i));
                    assert(old(self).process_stack@ + Seq::<StringIndex>::empty() =~= old(self).process_stack@);
                    assert(cycle_witness(b0, old(self).process_stack@, name, name, bt, Seq::<StringIndex>::empty(), i));
                }
                return Err(err);
            },
            ProcessingState::Errored => {
                let _ = self.types.insert(ty.0, PartialType { name, source, process_state, kind });
                proof {
                    assert(self.table() =~= b0.table());
                    assert(self.uninit_set() =~= b0.uninit_set());
                }
                return Err(LayoutError::Bypass);
            },
            ProcessingState::Uninit => {},
        }
        let _ = self.types.insert(
            ty.0,
            PartialType { name, source, process_state: ProcessingState::Processing, kind: None },
        );
        self.process_stack.push(name);
        let ghost b1 = *self;
        proof {
            assert(self.table() =~= b0.table().insert(
                ty.0,
                PartialType { name, source, process_state: ProcessingState::Processing, kind: None },
            ));
            lemma_uninit_finite(b0);
            assert(self.uninit_set() =~= b0.uninit_set().remove(ty.0));
            assert(b0.uninit_set().contains(ty.0));
            assert(self.uninit_count() == b0.uninit_count() - 1);
            assert(self.process_stack@ =~= b0.process_stack@.push(name));
            assert forall|k: u32| #[trigger] self.table().contains_key(k)
                && self.table()[k].process_state == ProcessingState::Processing
                && tm.map@[k as int] is None implies self.process_stack@.contains(self.table()[k].name) by {
                if k == ty.0 {
                    assert(self.process_stack@[self.process_stack@.len() - 1] == name);
                } else {
                    assert(b0.table().contains_key(k));
                    let j = choose|j: int| 0 <= j < b0.process_stack@.len() && b0.process_stack@[j] == b0.table()[k].name;
                    assert(self.process_stack@[j] == b0.table()[k].name);
                }
            }
            assert(self.ready(*tm));
        }
        let ghost shape = kind.unwrap();
        proof {
            assert(marks_visiting(b0, b1, ty.0));
        }
        let ret = match kind.unwrap() {
            PartialTypeKind::Struct { fields } => {
                let ghost fs = fields@;
                let res = self.process_struct(tm, fields, name);
                proof {
                    assert(shape == PartialTypeKind::Struct { fields });
                    if res is Err {
                        let e = res->Err_0;
                        if e is SizeOverflow && struct_overflows(tm.map@, fs) {
                            assert(b0.table().contains_key(ty.0));
                            assert(shape_overflows(tm.map@, b0.table()[ty.0].kind->Some_0));
                        } else {
                            let j = choose|j: int| 0 <= j < fs.len() && (#[trigger] fs[j]).ty is Custom
                                && b1.table().contains_key(fs[j].ty->Custom_0.0)
                                && error_cause(b1, tm0, b1.process_stack@,
                                    b1.table()[fs[j].ty->Custom_0.0].name, tm.map@, e);
                            let v = fs[j].ty->Custom_0.0;
                            assert(fs[j].ty == FieldType::Custom(TypeId(v)));
                            assert(shape_refs(shape, v));
                            lemma_cause_lift(b0, tm0, b1, ty.0, v, tm.map@, e);
                        }
                        assert(error_cause(b0, tm0, b0.process_stack@, name, tm.map@, e));
                    }
                }
                match res {
                    Ok(sym) => Ok(sym),
                    Err(e) => Err(e),
                }
            },
            PartialTypeKind::Enum { mappings } => {
                let ghost ms = mappings@;
                let res = self.process_enum(tm, mappings, name);
                proof {
                    assert(shape == PartialTypeKind::Enum { mappings });
                    if res is Err {
                        let e = res->Err_0;
                        if e is SizeOverflow && payloads_laid_out(tm.map@, ms) && !enum_fits(tm.map@, ms) {
                            assert(b0.table().contains_key(ty.0));
                            assert(shape_overflows(tm.map@, b0.table()[ty.0].kind->Some_0));
                        } else {
                            let j = choose|j: int| 0 <= j < ms.len() && (#[trigger] ms[j]).ty is Some
                                && ms[j].ty->Some_0 is Custom
                                && b1.table().contains_key(ms[j].ty->Some_0->Custom_0.0)
                                && error_cause(b1, tm0, b1.process_stack@,
                                    b1.table()[ms[j].ty->Some_0->Custom_0.0].name, tm.map@, e);
                            let v = ms[j].ty->Some_0->Custom_0.0;
                            assert(ms[j].ty == Some(FieldType::Custom(TypeId(v))));
                            assert(shape_refs(shape, v));
                            lemma_cause_lift(b0, tm0, b1, ty.0, v, tm.map@, e);
                        }
                        assert(error_cause(b0, tm0, b0.process_stack@, name, tm.map@, e));
                    }
                }
                match res {
                    Ok(sym) => Ok(sym),
                    Err(e) => Err(e),
                }
            },
        };
        let ghost b2 = *self;
        let ghost tm2 = *tm;
        proof {
            assert(b0.table()[ty.0].kind == Some(shape));
            assert(ret matches Ok(sym) ==> laid_out(tm2.map@, b0.table()[ty.0], sym));
        }
        self.process_stack.pop();
        proof {
            assert(self.process_stack@ =~= b0.process_stack@);
            assert(tm2.map@[ty.0 as int] is None);
        }
        match ret {
            Ok(sym) => {
                let l = layout_of(&sym);
                let ghost s0 = sym;
                tm.put(ty, sym);
                proof {
                    assert(grows(tm2.map@, tm.map@));
                    lemma_grows_trans(tm0.map@, tm2.map@, tm.map@);
                    lemma_laid_out_grows(tm2.map@, tm.map@, b0.table()[ty.0], s0);
                    assert(self.table() == b2.table());
                    Self::lemma_resolve_frame(b0, tm0, b1, b2, tm2, *self, *tm, ty.0);
                }
                Ok(l)
            },
            Err(e) => {
                let pt2 = self.types.remove(ty.0).unwrap();
                let PartialType { name: n2, source: s2, process_state: _, kind: k2 } = pt2;
                let _ = self.types.insert(
                    ty.0,
                    PartialType { name: n2, source: s2, process_state: ProcessingState::Errored, kind: k2 },
                );
                proof {
                    assert(self.table() =~= b2.table().insert(
                        ty.0,
                        PartialType { name: n2, source: s2, process_state: ProcessingState::Errored, kind: k2 },
                    ));
                    assert(self.uninit_set() =~= b2.uninit_set());
                    Self::lemma_resolve_frame(b0, tm0, b1, b2, tm2, *self, *tm, ty.0);
                }
                Err(e)
            },
        }
    }

    /// The frame of one `resolve_type` that visits `ty`: `b1` is `b0` with `ty`
    /// marked as being visited, `b2`/`tm2` what laying out its fields left,
    /// and `bf`/`tmf` the end, where `ty` is laid out or errored.
    proof fn lemma_resolve_frame(
        b0: TypeBuilder, tm0: TypeMap, b1: TypeBuilder, b2: TypeBuilder, tm2: TypeMap,
        bf: TypeBuilder, tmf: TypeMap, ty: u32,
    )
        requires
            b0.ready(tm0),
            ty < tm0.map@.len(),
            tm0.map@[ty as int] is None,
            b0.table().contains_key(ty),
            b0.table()[ty].process_state == ProcessingState::Uninit,
            b1.table() == b0.table().insert(ty, PartialType {
                name: b0.table()[ty].name,
                source: b0.table()[ty].source,
                process_state: ProcessingState::Processing,
                kind: None,
            }),
            advances(b1, tm0, b2, tm2),
            tm2.map@[ty as int] is None,
            bf.table().dom() == b2.table().dom(),
            bf.uninit_set().subset_of(b2.uninit_set()),
            forall|k: u32| k != ty && #[trigger] b2.table().contains_key(k) ==> bf.table()[k] == b2.table()[k],
            bf.table()[ty].name == b2.table()[ty].name,
            bf.table()[ty].source == b2.table()[ty].source,
            grows(tm2.map@, tmf.map@),
            forall|k: int| 0 <= k < tmf.map@.len() && k != ty ==> tmf.map@[k] == tm2.map@[k],
            tmf.map@[ty as int] is Some ==> laid_out(tmf.map@, b0.table()[ty], tmf.map@[ty as int].unwrap()),
            tmf.map@[ty as int] is None ==> bf.table()[ty].process_state == ProcessingState::Errored,
            tmf.map@[ty as int] is Some ==> bf.table()[ty].process_state != ProcessingState::Uninit,
        ensures
            advances(b0, tm0, bf, tmf),
    {
        lemma_grows_trans(tm0.map@, tm2.map@, tmf.map@);
        assert(b1.uninit_set().subset_of(b0.uninit_set()));
        assert forall|k: u32| #[trigger] b0.table().contains_key(k) implies {
            &&& k < tm0.map@.len()
            &&& bf.table()[k].name == b0.table()[k].name
            &&& bf.table()[k].source == b0.table()[k].source
            &&& (b0.table()[k].process_state == ProcessingState::Errored
                ==> bf.table()[k].process_state == ProcessingState::Errored)
            &&& (bf.table()[k].process_state == ProcessingState::Uninit ==> bf.table()[k] == b0.table()[k])
            &&& (bf.table()[k].process_state == ProcessingState::Processing && tmf.map@[k as int] is None
                ==> b0.table()[k].process_state == ProcessingState::Processing)
        } by {
            assert(b1.table().contains_key(k));
            if k != ty {
                assert(b1.table()[k] == b0.table()[k]);
                assert(bf.table()[k] == b2.table()[k]);
                assert(tmf.map@[k as int] == tm2.map@[k as int]);
            } else {
                if bf.table()[k].process_state == ProcessingState::Uninit {
                    assert(tmf.map@[ty as int] is None);
                    assert(false);
                }
            }
        }
        assert forall|k: int| 0 <= k < tm0.map@.len() && tm0.map@[k] is None && (#[trigger] tmf.map@[k]) is Some implies {
            &&& b0.table().contains_key(k as u32)
            &&& b0.table()[k as u32].process_state == ProcessingState::Uninit
            &&& laid_out(tmf.map@, b0.table()[k as u32], tmf.map@[k].unwrap())
        } by {
            if k != ty {
                assert(tmf.map@[k] == tm2.map@[k]);
                assert(b1.table().contains_key(k as u32));
                assert(b1.table()[k as u32] == b0.table()[k as u32]);
                lemma_laid_out_grows(tm2.map@, tmf.map@, b1.table()[k as u32], tm2.map@[k].unwrap());
            }
        }
        assert(grows(tm0.map@, tmf.map@));
        assert(bf.table().dom() =~= b0.table().dom());
        assert(bf.uninit_set().subset_of(b0.uninit_set()));
    }

    /// Lays out a struct: each field at the next offset its alignment
    /// allows, the struct aligned as its most aligned field.
    fn process_struct(&mut self, tm: &mut TypeMap, fields: Vec<PartialStructField>, name: StringIndex)
        -> (r: Result<TypeSymbol, LayoutError>)
        requires
            old(self).ready(*old(tm)),
            forall|i: int| 0 <= i < fields@.len() ==> resolvable(old(self).table(), old(tm).map@, #[trigger] fields@[i].ty),
        ensures
            final(self).ready(*final(tm)),
            advances(*old(self), *old(tm), *final(self), *final(tm)),
            final(self).process_stack@ == old(self).process_stack@,
            r matches Ok(sym) ==> {
                &&& struct_symbol_ok(final(tm).map@, name, fields@, sym)
                &&& symbol_layout(sym) matches Some(l)
                &&& align_ok(l.0)
            },
            r is Ok <==> (fields_laid_out(final(tm).map@, fields@) && struct_fits(final(tm).map@, fields@)),
            r matches Err(e) && !(e is SizeOverflow) ==> !fields_laid_out(final(tm).map@, fields@),
            r matches Err(e) ==> error_ok(*final(self), e),
            r is Ok ==> no_new_errors(*old(self), *final(self)),
            r is Err ==> {
                ||| r->Err_0 is SizeOverflow && struct_overflows(final(tm).map@, fields@)
                ||| exists|j: int| 0 <= j < fields@.len() && (#[trigger] fields@[j]).ty is Custom
                    && old(self).table().contains_key(fields@[j].ty->Custom_0.0)
                    && error_cause(*old(self), *old(tm), old(self).process_stack@,
                        old(self).table()[fields@[j].ty->Custom_0.0].name, final(tm).map@, r->Err_0)
            },
        decreases old(self).uninit_count() * 3 + 2,
    {
        let ghost b0 = *self;
        let ghost tm0 = *tm;
        let ghost mut ls: Seq<(nat, nat)> = Seq::empty();
        proof {
            lemma_advances_refl(*self, *tm);
            assert(fields@.take(0) =~= Seq::<PartialStructField>::empty());
            assert(field_layouts(tm.map@, fields@.take(0)) =~= ls);
        }
        let mut align: usize = 1;
        let mut cursor: usize = 0;
        let mut new_fields: Vec<(StructField, usize)> = Vec::new();
        let mut i: usize = 0;
        while i < fields.len()
            invariant
                0 <= i <= fields@.len(),
                self.ready(*tm),
                advances(b0, tm0, *self, *tm),
                self.process_stack@ == b0.process_stack@,
                b0.ready(tm0),
                b0 == *old(self),
                tm0 == *old(tm),
                forall|j: int| 0 <= j < fields@.len() ==> resolvable(self.table(), tm.map@, #[trigger] fields@[j].ty),
                no_new_errors(b0, *self),
                fields_laid_out(tm.map@, fields@.take(i as int)),
                ls == field_layouts(tm.map@, fields@.take(i as int)),
                align as nat == struct_align(ls),
                align_ok(align as nat),
                cursor as int == struct_cursor(ls),
                new_fields@.len() == i,
                forall|j: int| 0 <= j < i ==> #[trigger] new_fields@[j] == (
                    StructField { name: fields@[j].name, ty: fields@[j].ty },
                    struct_offset(ls, j) as usize,
                ),
            decreases fields@.len() - i,
        {
            let f = fields[i];
            proof {
                lemma_uninit_le(b0, *self);
            }
            let ghost tm_a = *tm;
            let ghost b_a = *self;
            let f_align = match self.align(tm, f.ty) {
                Ok(a) => a,
                Err(e) => {
                    proof {
                        lemma_advances_trans(b0, tm0, b_a, tm_a, *self, *tm);
                        assert(fields@[i as int] == f);
                        assert(field_layout(tm.map@, fields@[i as int].ty) is None);
                        let v = f.ty->Custom_0.0;
                        assert(b0.table().contains_key(v));
                        assert(b0.table()[v].name == b_a.table()[v].name);
                        lemma_cause_back(b0, tm0, b_a, tm_a, b0.process_stack@, b_a.table()[v].name, tm.map@, e);
                        assert(fields@[i as int].ty is Custom);
                    }
                    return Err(e);
                },
            };
            proof {
                lemma_advances_trans(b0, tm0, b_a, tm_a, *self, *tm);
                lemma_uninit_le(b0, *self);
                lemma_fields_grow(tm_a.map@, tm.map@, fields@.take(i as int));
                assert forall|k: u32| #[trigger] self.table().contains_key(k)
                    && self.table()[k].process_state == ProcessingState::Errored
                    implies b0.table()[k].process_state == ProcessingState::Errored by {
                    assert(b_a.table().contains_key(k));
                }
            }
            let ghost tm_b = *tm;
            let ghost b_b = *self;
            let f_size = match self.size(tm, f.ty) {
                Ok(z) => z,
                Err(e) => {
                    proof { assert(false); }
                    return Err(e);
                },
            };
            proof {
                lemma_advances_trans(b0, tm0, b_b, tm_b, *self, *tm);
                lemma_fields_grow(tm_b.map@, tm.map@, fields@.take(i as int));
                lemma_field_layout_grows(tm_b.map@, tm.map@, f.ty);
                assert forall|k: u32| #[trigger] self.table().contains_key(k)
                    && self.table()[k].process_state == ProcessingState::Errored
                    implies b0.table()[k].process_state == ProcessingState::Errored by {
                    assert(b_b.table().contains_key(k));
                }
            }
            align = if align >= f_align { align } else { f_align };
            proof {
                let l = field_layout(tm.map@, f.ty).unwrap();
                assert(fields@.take(i + 1) =~= fields@.take(i as int).push(f));
                assert(field_layouts(tm.map@, fields@.take(i + 1)) =~= ls.push(l));
                assert(ls.push(l).drop_last() =~= ls);
                assert forall|j: int| 0 <= j < i + 1 implies #[trigger] field_layout(tm.map@, fields@.take(i + 1)[j].ty) is Some by {
                    if j < i {
                        assert(fields@.take(i + 1)[j] == fields@.take(i as int)[j]);
                    }
                }
                assert(fields_laid_out(tm.map@, fields@.take(i + 1)));
            }
            let offset = match checked_ceil(cursor, f_align) {
                Some(c) => c,
                None => {
                    proof {
                        if fields_laid_out(tm.map@, fields@) {
                            lemma_struct_overflow(tm.map@, fields@, i + 1);
                        }
                        assert(struct_overflows(tm.map@, fields@));
                    }
                    return Err(LayoutError::SizeOverflow);
                },
            };
            if offset > usize::MAX - f_size {
                proof {
                    if fields_laid_out(tm.map@, fields@) {
                        lemma_struct_overflow(tm.map@, fields@, i + 1);
                    }
                    assert(struct_overflows(tm.map@, fields@));
                }
                return Err(LayoutError::SizeOverflow);
            }
            cursor = offset + f_size;
            new_fields.push((StructField::new(f.name, f.ty), offset));
            proof {
                let l = field_layout(tm.map@, f.ty).unwrap();
                let ls2 = ls.push(l);
                assert(fields@.take(i + 1) =~= fields@.take(i as int).push(f));
                assert(field_layouts(tm.map@, fields@.take(i + 1)) =~= ls2);
                assert(ls2.drop_last() =~= ls);
                assert(ls2.take(i as int) =~= ls);
                assert forall|j: int| 0 <= j < i + 1 implies #[trigger] new_fields@[j] == (
                    StructField { name: fields@[j].name, ty: fields@[j].ty },
                    struct_offset(ls2, j) as usize,
                ) by {
                    if j < i {
                        lemma_struct_offset_push(ls, l, j);
                    }
                }
                assert forall|j: int| 0 <= j < i + 1 implies #[trigger] field_layout(tm.map@, fields@.take(i + 1)[j].ty) is Some by {
                    if j < i {
                        assert(fields@.take(i + 1)[j] == fields@.take(i as int)[j]);
                    }
                }
                ls = ls2;
            }
            i = i + 1;
        }
        proof {
            assert(fields@.take(i as int) =~= fields@);
        }
        let size = match checked_ceil(cursor, align) {
            Some(z) => z,
            None => {
                return Err(LayoutError::SizeOverflow);
            },
        };
        let sym = TypeSymbol::new(
            name,
            TypeSymbolKind::Concrete(ConcreteType::new(
                align,
                size,
                ConcreteTypeKind::Struct(ConcreteTypeStruct { fields: new_fields, status: TypeStructStatus::User }),
            )),
        );
        proof {
            assert(fields@.take(i as int) =~= fields@);
        }
        Ok(sym)
    }

    /// Lays out an enum: a 4-byte tag, followed, when some variant carries
    /// a value, by a union as large and as aligned as the largest payload.
    fn process_enum(&mut self, tm: &mut TypeMap, fields: Vec<PartialEnumField>, name: StringIndex)
        -> (r: Result<TypeSymbol, LayoutError>)
        requires
            old(self).ready(*old(tm)),
            forall|i: int| 0 <= i < fields@.len() ==> match #[trigger] fields@[i].ty {
                Some(t) => resolvable(old(self).table(), old(tm).map@, t),
                None => true,
            },
        ensures
            final(self).ready(*final(tm)),
            advances(*old(self), *old(tm), *final(self), *final(tm)),
            final(self).process_stack@ == old(self).process_stack@,
            r matches Ok(sym) ==> {
                &&& enum_symbol_ok(final(tm).map@, name, fields@, sym)
                &&& symbol_layout(sym) matches Some(l)
                &&& align_ok(l.0)
            },
            r is Ok <==> (payloads_laid_out(final(tm).map@, fields@) && enum_fits(final(tm).map@, fields@)),
            r matches Err(e) && !(e is SizeOverflow) ==> !payloads_laid_out(final(tm).map@, fields@),
            r matches Err(e) ==> error_ok(*final(self), e),
            r is Ok ==> no_new_errors(*old(self), *final(self)),
            r is Err ==> {
                ||| r->Err_0 is SizeOverflow && payloads_laid_out(final(tm).map@, fields@)
                    && !enum_fits(final(tm).map@, fields@)
                ||| exists|j: int| 0 <= j < fields@.len() && (#[trigger] fields@[j]).ty is Some
                    && fields@[j].ty->Some_0 is Custom
                    && old(self).table().contains_key(fields@[j].ty->Some_0->Custom_0.0)
                    && error_cause(*old(self), *old(tm), old(self).process_stack@,
                        old(self).table()[fields@[j].ty->Some_0->Custom_0.0].name, final(tm).map@, r->Err_0)
            },
        decreases old(self).uninit_count() * 3 + 2,
    {
        let ghost b0 = *self;
        let ghost tm0 = *tm;
        proof {
            lemma_advances_refl(*self, *tm);
            assert(fields@.take(0) =~= Seq::<PartialEnumField>::empty());
        }
        let tag_align: usize = 4;
        let tag_size: usize = 4;
        let mut u_align: usize = 1;
        let mut u_size: usize = 0;
        let mut any_payload = false;
        let mut new_fields: Vec<TaggedUnionField> = Vec::new();
        let mut i: usize = 0;
        while i < fields.len()
            invariant
                0 <= i <= fields@.len(),
                self.ready(*tm),
                advances(b0, tm0, *self, *tm),
                self.process_stack@ == b0.process_stack@,
                b0.ready(tm0),
                b0 == *old(self),
                tm0 == *old(tm),
                forall|j: int| 0 <= j < fields@.len() ==> match #[trigger] fields@[j].ty {
                    Some(t) => resolvable(self.table(), tm.map@, t),
                    None => true,
                },
                no_new_errors(b0, *self),
                payloads_laid_out(tm.map@, fields@.take(i as int)),
                u_align as nat == union_align(tm.map@, fields@.take(i as int)),
                u_size as nat == union_size(tm.map@, fields@.take(i as int)),
                align_ok(u_align as nat),
                any_payload == !no_payloads(fields@.take(i as int)),
                new_fields@ == fields@.take(i as int).map_values(
                    |f: PartialEnumField| TaggedUnionField { name: f.name, ty: f.ty },
                ),
            decreases fields@.len() - i,
        {
            let f = fields[i];
            new_fields.push(TaggedUnionField::new(f.name, f.ty));
            let ghost prefix = fields@.take(i as int);
            let ghost next = fields@.take(i + 1);
            proof {
                assert(next =~= prefix.push(f));
                assert(next.drop_last() =~= prefix);
                assert(new_fields@ =~= next.map_values(
                    |f: PartialEnumField| TaggedUnionField { name: f.name, ty: f.ty },
                ));
            }
            match f.ty {
                None => {
                    proof {
                        assert(payloads_laid_out(tm.map@, next)) by {
                            assert forall|j: int| 0 <= j < next.len() implies match #[trigger] next[j].ty {
                                Some(t) => field_layout(tm.map@, t) is Some,
                                None => true,
                            } by {
                                if j < i {
                                    assert(next[j] == prefix[j]);
                                }
                            }
                        }
                        if any_payload {
                            let j = choose|j: int| 0 <= j < prefix.len() && !(#[trigger] prefix[j].ty is None);
                            assert(next[j] == prefix[j]);
                        } else {
                            assert forall|j: int| 0 <= j < next.len() implies #[trigger] next[j].ty is None by {
                                if j < i {
                                    assert(next[j] == prefix[j]);
                                }
                            }
                        }
                    }
                },
                Some(fty) => {
                    proof {
                        lemma_uninit_le(b0, *self);
                    }
                    let ghost tm_a = *tm;
                    let ghost b_a = *self;
                    let f_align = match self.align(tm, fty) {
                        Ok(a) => a,
                        Err(e) => {
                            proof {
                                lemma_advances_trans(b0, tm0, b_a, tm_a, *self, *tm);
                                assert(fields@[i as int] == f);
                                assert(field_layout(tm.map@, fty) is None);
                                assert(!(match fields@[i as int].ty {
                                    Some(t) => field_layout(tm.map@, t) is Some,
                                    None => true,
                                }));
                                let v = fty->Custom_0.0;
                                assert(b0.table().contains_key(v));
                                assert(b0.table()[v].name == b_a.table()[v].name);
                                lemma_cause_back(b0, tm0, b_a, tm_a, b0.process_stack@, b_a.table()[v].name, tm.map@, e);
                                assert(fields@[i as int].ty is Some);
                            }
                            return Err(e);
                        },
                    };
                    proof {
                        lemma_advances_trans(b0, tm0, b_a, tm_a, *self, *tm);
                        lemma_uninit_le(b0, *self);
                        lemma_union_grows(tm_a.map@, tm.map@, prefix);
                        assert forall|k: u32| #[trigger] self.table().contains_key(k)
                            && self.table()[k].process_state == ProcessingState::Errored
                            implies b0.table()[k].process_state == ProcessingState::Errored by {
                            assert(b_a.table().contains_key(k));
                        }
                    }
                    let ghost tm_b = *tm;
                    let ghost b_b = *self;
                    let f_size = match self.size(tm, fty) {
                        Ok(z) => z,
                        Err(e) => {
                            proof { assert(false); }
                            return Err(e);
                        },
                    };
                    proof {
                        lemma_advances_trans(b0, tm0, b_b, tm_b, *self, *tm);
                        lemma_union_grows(tm_b.map@, tm.map@, prefix);
                        lemma_field_layout_grows(tm_b.map@, tm.map@, fty);
                        assert forall|k: u32| #[trigger] self.table().contains_key(k)
                            && self.table()[k].process_state == ProcessingState::Errored
                            implies b0.table()[k].process_state == ProcessingState::Errored by {
                            assert(b_b.table().contains_key(k));
                        }
                    }
                    u_align = if u_align >= f_align { u_align } else { f_align };
                    u_size = if u_size >= f_size { u_size } else { f_size };
                    any_payload = true;
                    proof {
                        assert(payloads_laid_out(tm.map@, next)) by {
                            assert forall|j: int| 0 <= j < next.len() implies match #[trigger] next[j].ty {
                                Some(t) => field_layout(tm.map@, t) is Some,
                                None => true,
                            } by {
                                if j < i {
                                    assert(next[j] == prefix[j]);
                                }
                            }
                        }
                        assert(next[i as int] == f);
                    }
                },
            }
            i = i + 1;
        }
        proof {
            assert(fields@.take(i as int) =~= fields@);
        }
        proof {
            assert(ceil_to(0, 4) == 0);
            assert(ceil_to(4, 1) == 4);
            assert(ceil_to(4, 4) == 4);
            assert(ceil_to(4, 8) == 8);
        }
        if !any_payload {
            let mut size: usize = 0;
            size = match checked_ceil(size, tag_align) {
                Some(z) => z,
                None => {
                    return Err(LayoutError::SizeOverflow);
                },
            };
            size = size + tag_align;
            size = match checked_ceil(size, tag_align) {
                Some(z) => z,
                None => {
                    return Err(LayoutError::SizeOverflow);
                },
            };
            let mut tags: Vec<StringIndex> = Vec::new();
            let mut k: usize = 0;
            while k < fields.len()
                invariant
                    0 <= k <= fields@.len(),
                    tags@ == fields@.take(k as int).map_values(|f: PartialEnumField| f.name),
                decreases fields@.len() - k,
            {
                tags.push(fields[k].name);
                k = k + 1;
                assert(tags@ =~= fields@.take(k as int).map_values(|f: PartialEnumField| f.name));
            }
            proof {
                assert(fields@.take(k as int) =~= fields@);
                assert(ceil_to(0, 4) == 0);
                assert(ceil_to(4, 4) == 4);
            }
            return Ok(TypeSymbol::new(
                name,
                TypeSymbolKind::Concrete(ConcreteType::new(
                    tag_align,
                    size,
                    ConcreteTypeKind::Enum(ConcreteTypeEnum::new(
                        ConcreteTypeEnumStatus::User,
                        ConcreteTypeEnumKind::Tag(TypeTag::new(tags)),
                    )),
                )),
            ));
        }
        let mut align: usize = 1;
        let mut size: usize = 0;
        align = if align >= tag_align { align } else { tag_align };
        size = match checked_ceil(size, tag_align) {
            Some(z) => z,
            None => {
                return Err(LayoutError::SizeOverflow);
            },
        };
        size = size + tag_size;
        align = if align >= u_align { align } else { u_align };
        size = match checked_ceil(size, u_align) {
            Some(z) => z,
            None => {
                return Err(LayoutError::SizeOverflow);
            },
        };
        let union_offset = size;
        proof {
            assert(ceil_to(0, 4) == 0);
            assert(ceil_to(4, 1) == 4);
            assert(ceil_to(4, 4) == 4);
            assert(ceil_to(4, 8) == 8);
        }
        if size > usize::MAX - u_size {
            proof {
                lemma_ceil_ge(size + u_size, max_nat(4, u_align as nat) as int);
            }
            return Err(LayoutError::SizeOverflow);
        }
        size = size + u_size;
        size = match checked_ceil(size, align) {
            Some(z) => z,
            None => {
                return Err(LayoutError::SizeOverflow);
            },
        };
        Ok(TypeSymbol::new(
            name,
            TypeSymbolKind::Concrete(ConcreteType::new(
                align,
                size,
                ConcreteTypeKind::Enum(ConcreteTypeEnum::new(
                    ConcreteTypeEnumStatus::User,
                    ConcreteTypeEnumKind::TaggedUnion(TypeTaggedUnion::new(union_offset as u32, new_fields)),
                )),
            )),
        ))
    }
}

/// The types of `b` that are not laid out in `tm`.
pub open spec fn unlaid(b: TypeBuilder, tm: TypeMap) -> Set<u32> {
    Set::new(|k: u32| b.table().contains_key(k) && tm.map@[k as int] is None)
}

/// The types among the first `n` of `keys` that are not laid out in `tm`.
pub open spec fn unlaid_among(keys: Seq<u32>, n: int, tm: TypeMap) -> Set<u32> {
    Set::new(|k: u32| keys.take(n).contains(k) && tm.map@[k as int] is None)
}

impl TypeBuilder {
    /// Lays out every type added. Afterwards each of them is either laid
    /// out in `tm`, as the layout of its declared shape, or marked errored.
    /// One error is appended to `errors` for each type that is not laid
    /// out at the end (a type that failed before the call reports
    /// `Bypass`); a cycle is reported as `CyclicType` naming a failed type
    /// and listing the cycle from it. The first error appended has a cause
    /// that `error_cause` names in the state the call started in, so when
    /// no type failed before, no declared shape overflows and the declared
    /// fields form no cycle, every type is laid out and nothing is
    /// appended.
    pub fn finalise(&mut self, tm: &mut TypeMap, errors: &mut Vec<LayoutError>)
        requires
            old(self).ready(*old(tm)),
        ensures
            final(self).ready(*final(tm)),
            advances(*old(self), *old(tm), *final(self), *final(tm)),
            final(self).process_stack@ == old(self).process_stack@,
            forall|k: u32| #[trigger] final(self).table().contains_key(k) ==> {
                ||| final(tm).map@[k as int] is Some
                ||| final(self).table()[k].process_state == ProcessingState::Errored
            },
            final(errors)@.len() == old(errors)@.len() + unlaid(*final(self), *final(tm)).len(),
            final(errors)@.take(old(errors)@.len() as int) == old(errors)@,
            forall|j: int| old(errors)@.len() <= j < final(errors)@.len() ==> error_ok(*final(self), #[trigger] final(errors)@[j]),
            final(errors)@.len() > old(errors)@.len() ==> exists|k: u32| #[trigger] old(self).table().contains_key(k)
                && error_cause(*old(self), *old(tm), old(self).process_stack@, old(self).table()[k].name,
                    final(tm).map@, final(errors)@[old(errors)@.len() as int]),
    {
        let ghost b0 = *self;
        let ghost tm0 = *tm;
        let ghost e0 = errors@;
        proof {
            lemma_advances_refl(*self, *tm);
        }
        let keys = self.types.keys();
        proof {
            assert(unlaid_among(keys@, 0, *tm) =~= Set::<u32>::empty());
        }
        let mut i: usize = 0;
        while i < keys.len()
            invariant
                0 <= i <= keys@.len(),
                self.ready(*tm),
                advances(b0, tm0, *self, *tm),
                self.process_stack@ == b0.process_stack@,
                keys@.to_set() == self.table().dom(),
                keys@.no_duplicates(),
                forall|j: int| 0 <= j < i ==> {
                    ||| tm.map@[#[trigger] keys@[j] as int] is Some
                    ||| self.table()[keys@[j]].process_state == ProcessingState::Errored
                },
                errors@.len() == e0.len() + unlaid_among(keys@, i as int, *tm).len(),
                errors@.take(e0.len() as int) == e0,
                forall|j: int| e0.len() <= j < errors@.len() ==> error_ok(*self, #[trigger] errors@[j]),
                b0.ready(tm0),
                errors@.len() == e0.len() ==> no_new_errors(b0, *self),
                errors@.len() > e0.len() ==> exists|k: u32| #[trigger] b0.table().contains_key(k)
                    && error_cause(b0, tm0, b0.process_stack@, b0.table()[k].name, tm.map@, errors@[e0.len() as int]),
            decreases keys@.len() - i,
        {
            let k = keys[i];
            proof {
                assert(keys@.to_set().contains(k));
            }
            let ghost b_a = *self;
            let ghost tm_a = *tm;
            let ghost errs = errors@;
            let ghost failed: bool;
            match self.resolve_type(tm, TypeId(k)) {
                Ok(_) => {
                    proof { failed = false; }
                },
                Err(e) => {
                    errors.push(e);
                    proof {
                        failed = true;
                        assert(errors@.take(e0.len() as int) =~= errs.take(e0.len() as int));
                    }
                },
            }
            proof {
                if errs.len() == e0.len() {
                    if errors@.len() > e0.len() {
                        let e = errors@[e0.len() as int];
                        assert(e == errors@.last());
                        assert(b0.table().contains_key(k));
                        assert(b0.table()[k].name == b_a.table()[k].name);
                        lemma_cause_back(b0, tm0, b_a, tm_a, b0.process_stack@, b_a.table()[k].name, tm.map@, e);
                    } else {
                        assert forall|x: u32| #[trigger] self.table().contains_key(x)
                            && self.table()[x].process_state == ProcessingState::Errored
                            implies b0.table()[x].process_state == ProcessingState::Errored by {
                            assert(b_a.table().contains_key(x));
                        }
                    }
                } else {
                    assert(errors@[e0.len() as int] == errs[e0.len() as int]);
                    let kk = choose|kk: u32| #[trigger] b0.table().contains_key(kk)
                        && error_cause(b0, tm0, b0.process_stack@, b0.table()[kk].name, tm_a.map@, errs[e0.len() as int]);
                    lemma_cause_grows(b0, tm0, b0.process_stack@, b0.table()[kk].name, tm_a.map@, tm.map@, errs[e0.len() as int]);
                }
                lemma_advances_trans(b0, tm0, b_a, tm_a, *self, *tm);
                assert forall|j: int| 0 <= j < i + 1 implies {
                    ||| tm.map@[#[trigger] keys@[j] as int] is Some
                    ||| self.table()[keys@[j]].process_state == ProcessingState::Errored
                } by {
                    if j < i {
                        assert(keys@.to_set().contains(keys@[j]));
                        if tm_a.map@[keys@[j] as int] is Some {
                            assert(tm.map@[keys@[j] as int] == tm_a.map@[keys@[j] as int]);
                        } else {
                            assert(b_a.table().contains_key(keys@[j]));
                        }
                    }
                }
                // the earlier keys keep whether they are laid out
                let p_old = unlaid_among(keys@, i as int, tm_a);
                let p_mid = unlaid_among(keys@, i as int, *tm);
                assert forall|x: u32| p_old.contains(x) <==> p_mid.contains(x) by {
                    if keys@.take(i as int).contains(x) {
                        let j = choose|j: int| 0 <= j < i && keys@.take(i as int)[j] == x;
                        assert(keys@[j] == x);
                        assert(keys@.to_set().contains(x));
                        assert(b_a.table().contains_key(x));
                        if tm_a.map@[x as int] is Some {
                            assert(tm.map@[x as int] == tm_a.map@[x as int]);
                        } else {
                            assert(b_a.table()[x].process_state == ProcessingState::Errored);
                            if tm.map@[x as int] is Some {
                                assert(b_a.table()[x].process_state == ProcessingState::Uninit);
                            }
                        }
                    }
                }
                assert(p_old =~= p_mid);
                let p_new = unlaid_among(keys@, i + 1, *tm);
                assert(keys@.take(i + 1) =~= keys@.take(i as int).push(k));
                assert(!keys@.take(i as int).contains(k)) by {
                    if keys@.take(i as int).contains(k) {
                        let j = choose|j: int| 0 <= j < i && keys@.take(i as int)[j] == k;
                        assert(keys@[j] == keys@[i as int]);
                    }
                }
                assert(p_mid.subset_of(self.table().dom()));
                vstd::set_lib::lemma_len_subset(p_mid, self.table().dom());
                if failed {
                    assert(tm.map@[k as int] is None);
                    assert forall|x: u32| p_new.contains(x) <==> p_mid.insert(k).contains(x) by {
                        if x == k {
                            assert(keys@.take(i + 1)[i as int] == k);
                        } else {
                            if keys@.take(i + 1).contains(x) {
                                let j = choose|j: int| 0 <= j < i + 1 && #[trigger] keys@.take(i + 1)[j] == x;
                                assert(j < i);
                                assert(keys@.take(i as int)[j] == x);
                            }
                            if keys@.take(i as int).contains(x) {
                                let j = choose|j: int| 0 <= j < i && keys@.take(i as int)[j] == x;
                                assert(keys@.take(i + 1)[j] == x);
                            }
                        }
                    }
                    assert(p_new =~= p_mid.insert(k));
                    assert(!p_mid.contains(k));
                    assert(errors@.len() == errs.len() + 1);
                } else {
                    assert(tm.map@[k as int] is Some);
                    assert(p_new =~= p_mid);
                }
                assert forall|j: int| e0.len() <= j < errors@.len() implies error_ok(*self, #[trigger] errors@[j]) by {
                    if j < errs.len() {
                        assert(errors@[j] == errs[j]);
                        lemma_error_ok_advances(b_a, tm_a, *self, *tm, errs[j]);
                    }
                }
            }
            i = i + 1;
        }
        proof {
            assert forall|k: u32| #[trigger] self.table().contains_key(k) implies {
                ||| tm.map@[k as int] is Some
                ||| self.table()[k].process_state == ProcessingState::Errored
            } by {
                assert(keys@.to_set().contains(k));
                let j = choose|j: int| 0 <= j < keys@.len() && keys@[j] == k;
                assert(tm.map@[keys@[j] as int] is Some
                    || self.table()[keys@[j]].process_state == ProcessingState::Errored);
            }
            assert(keys@.take(i as int) =~= keys@);
            assert forall|x: u32| unlaid_among(keys@, i as int, *tm).contains(x) <==> unlaid(*self, *tm).contains(x) by {
                assert(keys@.to_set().contains(x) == keys@.contains(x));
            }
            assert(unlaid_among(keys@, i as int, *tm) =~= unlaid(*self, *tm));
        }
    }
}

} // verus!
