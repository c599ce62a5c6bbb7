use vstd::prelude::*;

use crate::ids::StringIndex;
use crate::types::Generic;

verus! {

/// A struct, enum or tuple: its fields (variants for an enum), each with a
/// name when it has one.
#[derive(Debug)]
pub struct Container {
    pub fields: Vec<(Option<StringIndex>, Generic)>,
    pub kind: ContainerKind,
}

#[derive(Clone, Copy, Debug, PartialEq, Eq, Structural)]
pub enum ContainerKind {
    /// All fields are named.
    Struct,
    /// All fields are named.
    Enum,
    Tuple,
}

impl Container {
    pub fn new(fields: Vec<(Option<StringIndex>, Generic)>, kind: ContainerKind) -> (r: Self)
        ensures
            r.fields == fields,
            r.kind == kind,
    {
        Container { fields, kind }
    }
}

} // verus!
