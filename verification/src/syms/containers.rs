use vstd::prelude::*;

use crate::ids::StringIndex;
use crate::syms::sym_map::Generic;

verus! {

/// A struct, enum or tuple: its named fields (variants for an enum).
#[derive(Debug)]
pub struct Container {
    pub fields: Vec<(StringIndex, Generic)>,
    pub kind: ContainerKind,
}

#[derive(Clone, Copy, Debug, PartialEq, Eq, Structural)]
pub enum ContainerKind {
    Struct,
    Enum,
    Tuple,
}

impl Container {
    pub fn new(fields: Vec<(StringIndex, Generic)>, kind: ContainerKind) -> (r: Self)
        ensures
            r.fields == fields,
            r.kind == kind,
    {
        Container { fields, kind }
    }
}

} // verus!
