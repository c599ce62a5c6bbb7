use vstd::prelude::*;

use crate::types::ty_map::TypeId;

verus! {

/// The type of a node of the typed syntax tree.
#[derive(Clone, Copy, Debug, PartialEq, Eq, Structural)]
pub enum Type {
    UserType(TypeId),
    Str,
    Int,
    Bool,
    Float,
    Unit,
    Any,
    Never,
    Error,
}

} // verus!
