use vstd::prelude::*;

use crate::ids::StringIndex;
use crate::types::ty_map::TypeId;

verus! {

/// The type of a struct field or enum payload as the layout pass sees it.
#[derive(Clone, Copy, Debug, PartialEq, Eq, Structural)]
pub enum FieldType {
    I64,
    I32,
    F64,
    Any,
    Unit,
    Never,
    Error,
    Custom(TypeId),
}

/// A laid-out (or template) type, by name.
#[derive(Debug)]
pub struct TypeSymbol {
    pub display_name: StringIndex,
    pub kind: TypeSymbolKind,
}

#[derive(Debug)]
pub enum TypeSymbolKind {
    Concrete(ConcreteType),
    Template(TemplateType),
    GenericPlaceholder,
}

/// A type whose layout is known.
#[derive(Debug)]
pub struct ConcreteType {
    pub align: usize,
    pub size: usize,
    pub kind: ConcreteTypeKind,
}

/// A generic type before instantiation.
#[derive(Debug)]
pub struct TemplateType {
    pub generics: Vec<StringIndex>,
    pub kind: TemplateTypeKind,
}

#[derive(Debug)]
pub enum TemplateTypeKind {
    Struct(TemplateTypeStruct),
    Enum,
}

#[derive(Debug)]
pub enum ConcreteTypeKind {
    Struct(ConcreteTypeStruct),
    Enum(ConcreteTypeEnum),
}

#[derive(Debug)]
pub struct TemplateTypeStruct {
    pub fields: Vec<StructField>,
    pub status: TypeStructStatus,
}

/// A struct's fields, each with its byte offset.
#[derive(Debug)]
pub struct ConcreteTypeStruct {
    pub fields: Vec<(StructField, usize)>,
    pub status: TypeStructStatus,
}

#[derive(Clone, Copy, Debug, PartialEq, Eq, Structural)]
pub enum TypeStructStatus {
    User,
    Tuple,
    Rc,
    RcMut,
}

#[derive(Clone, Copy, Debug, PartialEq, Eq, Structural)]
pub struct StructField {
    pub name: StringIndex,
    pub ty: FieldType,
}

#[derive(Debug)]
pub struct ConcreteTypeEnum {
    pub status: ConcreteTypeEnumStatus,
    pub kind: ConcreteTypeEnumKind,
}

#[derive(Clone, Copy, Debug, PartialEq, Eq, Structural)]
pub enum ConcreteTypeEnumStatus {
    User,
    Result,
    Option,
}

/// An enum is a bare tag when no variant carries a value, else a tag
/// followed by a union of the payloads.
#[derive(Debug)]
pub enum ConcreteTypeEnumKind {
    TaggedUnion(TypeTaggedUnion),
    Tag(TypeTag),
}

#[derive(Debug)]
pub struct TypeTaggedUnion {
    pub union_offset: u32,
    pub mappings: Vec<TaggedUnionField>,
}

#[derive(Clone, Copy, Debug, PartialEq, Eq, Structural)]
pub struct TaggedUnionField {
    pub name: StringIndex,
    pub ty: Option<FieldType>,
}

#[derive(Debug)]
pub struct TypeTag {
    pub tags: Vec<StringIndex>,
}

impl StructField {
    pub fn new(name: StringIndex, ty: FieldType) -> (r: Self)
        ensures
            r == (StructField { name, ty }),
    {
        StructField { name, ty }
    }
}

impl TaggedUnionField {
    pub fn new(name: StringIndex, ty: Option<FieldType>) -> (r: Self)
        ensures
            r == (TaggedUnionField { name, ty }),
    {
        TaggedUnionField { name, ty }
    }

    pub fn ty(self) -> (r: Option<FieldType>)
        ensures
            r == self.ty,
    {
        self.ty
    }

    pub fn name(self) -> (r: StringIndex)
        ensures
            r == self.name,
    {
        self.name
    }
}

impl TypeSymbol {
    pub fn new(display_name: StringIndex, kind: TypeSymbolKind) -> (r: Self)
        ensures
            r.display_name == display_name,
            r.kind == kind,
    {
        TypeSymbol { display_name, kind }
    }

    pub fn display_name(&self) -> (r: StringIndex)
        ensures
            r == self.display_name,
    {
        self.display_name
    }

    pub fn kind(&self) -> (r: &TypeSymbolKind)
        ensures
            *r == self.kind,
    {
        &self.kind
    }

    /// The layout of a type that is not a template: a generic placeholder is
    /// laid out as an empty struct.
    pub fn as_concrete(self) -> (r: ConcreteType)
        requires
            !(self.kind is Template),
        ensures
            match self.kind {
                TypeSymbolKind::Concrete(c) => r == c,
                _ => {
                    &&& r.align == 1
                    &&& r.size == 0
                    &&& r.kind matches ConcreteTypeKind::Struct(s)
                    &&& s.fields@.len() == 0
                    &&& s.status == TypeStructStatus::User
                },
            },
    {
        match self.kind {
            TypeSymbolKind::Concrete(c) => c,
            TypeSymbolKind::GenericPlaceholder => ConcreteType {
                align: 1,
                size: 0,
                kind: ConcreteTypeKind::Struct(
                    ConcreteTypeStruct { fields: Vec::new(), status: TypeStructStatus::User },
                ),
            },
            TypeSymbolKind::Template(_) => {
                proof {
                    assert(false);
                }
                ConcreteType {
                    align: 1,
                    size: 0,
                    kind: ConcreteTypeKind::Struct(
                        ConcreteTypeStruct { fields: Vec::new(), status: TypeStructStatus::User },
                    ),
                }
            },
        }
    }
}

impl ConcreteType {
    pub fn new(align: usize, size: usize, kind: ConcreteTypeKind) -> (r: Self)
        ensures
            r.align == align,
            r.size == size,
            r.kind == kind,
    {
        ConcreteType { align, size, kind }
    }
}

impl ConcreteTypeEnum {
    pub fn new(status: ConcreteTypeEnumStatus, kind: ConcreteTypeEnumKind) -> (r: Self)
        ensures
            r.status == status,
            r.kind == kind,
    {
        ConcreteTypeEnum { status, kind }
    }

    pub fn status(&self) -> (r: ConcreteTypeEnumStatus)
        ensures
            r == self.status,
    {
        self.status
    }

    pub fn kind(&self) -> (r: &ConcreteTypeEnumKind)
        ensures
            *r == self.kind,
    {
        &self.kind
    }
}

impl TypeTaggedUnion {
    pub fn new(union_offset: u32, mappings: Vec<TaggedUnionField>) -> (r: Self)
        ensures
            r.union_offset == union_offset,
            r.mappings == mappings,
    {
        TypeTaggedUnion { union_offset, mappings }
    }

    pub fn union_offset(&self) -> (r: u32)
        ensures
            r == self.union_offset,
    {
        self.union_offset
    }

    /// The variants, in order, each with the type of its payload.
    pub fn fields(&self) -> (r: &Vec<TaggedUnionField>)
        ensures
            *r == self.mappings,
    {
        &self.mappings
    }
}

impl TypeTag {
    pub fn new(tags: Vec<StringIndex>) -> (r: Self)
        ensures
            r.tags == tags,
    {
        TypeTag { tags }
    }

    /// The names of the variants, in tag order.
    pub fn fields(&self) -> (r: &Vec<StringIndex>)
        ensures
            *r == self.tags,
    {
        &self.tags
    }
}

} // verus!
