use vstd::prelude::*;

verus! {

/// Identifier of a symbol by its position in a symbol list.
#[derive(Clone, Copy, Debug, PartialEq, Eq, Structural, PartialOrd, Ord, Hash, Default)]
pub struct SymbolId(pub usize);

} // verus!
