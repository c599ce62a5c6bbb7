use vstd::prelude::*;

verus! {

/// Index of an interned string.
#[derive(Clone, Copy, Debug, PartialEq, Eq, Structural)]
pub struct StringIndex(pub u32);

/// A span of source text, as byte offsets.
#[derive(Clone, Copy, Debug, PartialEq, Eq, Structural)]
pub struct SourceRange {
    pub start: u32,
    pub end: u32,
}

impl SourceRange {
    /// The empty range at the start of the source, used for compiler-made items.
    pub fn zero() -> (r: SourceRange)
        ensures
            r == (SourceRange { start: 0, end: 0 }),
    {
        SourceRange { start: 0, end: 0 }
    }
}

/// Identifier of a namespace in a `NamespaceMap`.
#[derive(Clone, Copy, Debug, PartialEq, Eq, Structural)]
pub struct NamespaceId(pub u32);

impl NamespaceId {
    pub fn usize(self) -> (r: usize)
        ensures
            r == self.0,
    {
        self.0 as usize
    }
}

/// Identifier of a scope in a `ScopeMap`.
#[derive(Clone, Copy, Debug, PartialEq, Eq, Structural)]
pub struct ScopeId(pub u32);

/// Identifier of a reported error.
#[derive(Clone, Copy, Debug, PartialEq, Eq, Structural)]
pub struct ErrorId(pub u32);

} // verus!

verus! {

/// Identifier of an expression in the parsed program.
#[derive(Clone, Copy, Debug, PartialEq, Eq, Structural)]
pub struct ExprId(pub u32);

/// Identifier of a statement in the parsed program.
#[derive(Clone, Copy, Debug, PartialEq, Eq, Structural)]
pub struct StmtId(pub u32);

/// Identifier of a node in the parsed program.
#[derive(Clone, Copy, Debug, PartialEq, Eq, Structural)]
pub struct NodeId(pub u32);

/// Identifier of a declaration node in the parsed program.
#[derive(Clone, Copy, Debug, PartialEq, Eq, Structural)]
pub struct DeclId(pub u32);

} // verus!
