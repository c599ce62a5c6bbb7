use vstd::prelude::*;

use crate::ids::{DeclId, StringIndex};
use crate::types::{Generic, SymbolId};

verus! {

/// A function's signature.
#[derive(Debug)]
pub struct FunctionTy {
    pub args: Vec<FunctionArgument>,
    pub ret: Generic,
    pub kind: FunctionKind,
}

#[derive(Debug)]
pub struct FunctionArgument {
    pub name: StringIndex,
    pub symbol: Generic,
    pub inout: bool,
}

/// Where a function's body comes from.
#[derive(Clone, Copy, Debug, PartialEq, Eq, Structural)]
pub enum FunctionKind {
    Extern(StringIndex),
    UserDefined { decl: DeclId },
    /// The constructor of variant `index` of enum `sym`.
    Enum { sym: SymbolId, index: usize },
}

impl FunctionTy {
    pub fn new(args: Vec<FunctionArgument>, ret: Generic, kind: FunctionKind) -> (r: Self)
        ensures
            r.args == args,
            r.ret == ret,
            r.kind == kind,
    {
        FunctionTy { args, ret, kind }
    }
}

impl FunctionArgument {
    pub fn new(name: StringIndex, symbol: Generic, inout: bool) -> (r: Self)
        ensures
            r.name == name,
            r.symbol == symbol,
            r.inout == inout,
    {
        FunctionArgument { name, symbol, inout }
    }
}

} // verus!
