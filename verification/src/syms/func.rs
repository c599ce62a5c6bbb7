use vstd::prelude::*;

use crate::ids::{DeclId, StringIndex};
use crate::syms::sym_map::{ClosureId, Generic, SymbolId};

verus! {

/// A function's signature, where its body comes from, and whether its
/// code has been generated already.
#[derive(Debug)]
pub struct FunctionTy {
    pub args: Vec<FunctionArgument>,
    pub ret: Generic,
    pub kind: FunctionKind,
    pub decl: Option<DeclId>,
    pub cached: bool,
}

#[derive(Debug)]
pub struct FunctionArgument {
    pub name: StringIndex,
    pub symbol: Generic,
}

#[derive(Clone, Copy, Debug, PartialEq, Eq, Structural)]
pub enum FunctionKind {
    Extern(StringIndex),
    Closure(ClosureId),
    UserDefined,
    TypeId,
    SizeOf,
    Any,
    DowncastAny,
    /// The constructor of variant `index` of enum `sym`.
    Enum { sym: SymbolId, index: usize },
    /// A function of a trait, implemented per type.
    Trait,
    Rc,
    RcGet,
    RcSet,
    PtrAlloc,
    PtrFree,
    PtrRead,
    PtrWrite,
    PtrWriteUninit,
    PtrNull,
    PtrOffset,
    PtrCast,
    PtrDrop,
    ListConcat,
    ListSlice,
    ListLen,
}

impl FunctionTy {
    /// A signature whose code is not generated yet.
    pub fn new(args: Vec<FunctionArgument>, ret: Generic, kind: FunctionKind, decl: Option<DeclId>) -> (r: Self)
        ensures
            r.args == args,
            r.ret == ret,
            r.kind == kind,
            r.decl == decl,
            !r.cached,
    {
        FunctionTy { args, ret, kind, decl, cached: false }
    }
}

impl FunctionArgument {
    pub fn new(name: StringIndex, symbol: Generic) -> (r: Self)
        ensures
            r.name == name,
            r.symbol == symbol,
    {
        FunctionArgument { name, symbol }
    }
}

} // verus!
