pub mod builtins;
pub mod containers;
pub mod func;
pub mod sym_map;
pub mod ty;

use vstd::prelude::*;

use crate::ids::{ErrorId, NamespaceId, StringIndex};
use crate::syms::containers::Container;
use crate::syms::func::FunctionTy;
use crate::syms::sym_map::{BoundedGeneric, Generic};

verus! {

/// A named item of the program: a type, a function, a trait, an alias or a
/// namespace, with its generic parameters.
#[derive(Debug)]
pub struct Symbol {
    pub name: StringIndex,
    pub generics: Vec<BoundedGeneric>,
    pub kind: SymbolKind,
}

#[derive(Debug)]
pub enum SymbolKind {
    Function(FunctionTy),
    Container(Container),
    Trait(Trait),
    Alias(Generic),
    Opaque,
    Namespace,
    /// A symbol that failed to resolve, with the error it came from.
    Error(ErrorId),
}

/// A trait: its functions, and whether every type implements it without
/// saying so.
#[derive(Debug)]
pub struct Trait {
    pub funcs: Vec<(StringIndex, FunctionTy)>,
    pub synthesis: TraitSynthesis,
}

/// How a trait is implemented for types that do not implement it
/// explicitly.
#[derive(Clone, Copy, Debug, PartialEq, Eq, Structural)]
pub enum TraitSynthesis {
    /// Not at all.
    Absent,
    /// By a function that does nothing, for every type.
    UniversalNoop,
}

/// How a type implements a trait: by an `impl` (the namespace of its
/// functions, the type pattern it was written for and its generic
/// parameters), or by the trait's synthesis.
#[derive(Debug)]
pub enum TraitImplementation {
    Explicit(NamespaceId, Generic, Vec<BoundedGeneric>),
    Synthesized(TraitSynthesis),
}

impl Symbol {
    pub fn new(name: StringIndex, generics: Vec<BoundedGeneric>, kind: SymbolKind) -> (r: Self)
        ensures
            r.name == name,
            r.generics == generics,
            r.kind == kind,
    {
        Symbol { name, generics, kind }
    }

    /// A namespace symbol named `name`.
    pub fn new_ns(name: StringIndex) -> (r: Self)
        ensures
            r.name == name,
            r.generics@.len() == 0,
            r.kind is Namespace,
    {
        Symbol { name, generics: Vec::new(), kind: SymbolKind::Namespace }
    }
}

} // verus!
