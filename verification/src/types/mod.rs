use vstd::prelude::*;

pub mod ty_sym;
pub mod ty_map;
pub mod ty_builder;
pub mod ty;
pub mod containers;
pub mod func;
pub mod symbol_map;

use crate::ids::{NamespaceId, SourceRange, StringIndex};
use crate::types::containers::Container;
use crate::types::func::FunctionTy;
use crate::types::ty::Type;

verus! {

/// Identifier of a symbol in the symbol table of the analysis.
#[derive(Clone, Copy, Debug, PartialEq, Eq, Structural)]
pub struct SymbolId(pub u32);

/// The raw ids of the builtin symbols.
impl SymbolId {
    pub const UNIT: u32 = 0;
    pub const I8: u32 = 1;
    pub const I16: u32 = 2;
    pub const I32: u32 = 3;
    pub const I64: u32 = 4;
    pub const U8: u32 = 5;
    pub const U16: u32 = 6;
    pub const U32: u32 = 7;
    pub const U64: u32 = 8;
    pub const F32: u32 = 9;
    pub const F64: u32 = 10;
    /// followed by its two variant functions
    pub const BOOL: u32 = 11;
    pub const ERROR: u32 = 14;
    pub const NEVER: u32 = 15;
    pub const PTR: u32 = 16;
    pub const RANGE: u32 = 17;
    /// followed by its two variant functions
    pub const OPTION: u32 = 18;
    /// followed by its two variant functions
    pub const RESULT: u32 = 21;
    pub const STR: u32 = 24;
}

/// The signed integer symbols.
pub open spec fn is_sint_id(id: u32) -> bool {
    id == SymbolId::I8 || id == SymbolId::I16 || id == SymbolId::I32 || id == SymbolId::I64
}

/// The integer symbols, signed or not.
pub open spec fn is_int_id(id: u32) -> bool {
    is_sint_id(id) || id == SymbolId::U8 || id == SymbolId::U16 || id == SymbolId::U32
        || id == SymbolId::U64
}

/// The numeric symbols: integers and floats.
pub open spec fn is_num_id(id: u32) -> bool {
    is_int_id(id) || id == SymbolId::F32 || id == SymbolId::F64
}

/// The symbols that `== !=` apply to: the numeric ones, `bool` and unit.
pub open spec fn is_eq_id(id: u32) -> bool {
    is_num_id(id) || id == SymbolId::BOOL || id == SymbolId::UNIT
}

impl SymbolId {
    /// Whether `+ - * / %` apply: the numeric types.
    pub fn supports_arith(self) -> (r: bool)
        ensures
            r == is_num_id(self.0),
    {
        self.0 == SymbolId::I8 || self.0 == SymbolId::I16 || self.0 == SymbolId::I32
            || self.0 == SymbolId::I64 || self.0 == SymbolId::U8 || self.0 == SymbolId::U16
            || self.0 == SymbolId::U32 || self.0 == SymbolId::U64 || self.0 == SymbolId::F32
            || self.0 == SymbolId::F64
    }

    /// Whether bitwise operators apply: the integer types.
    pub fn supports_bw(self) -> (r: bool)
        ensures
            r == is_int_id(self.0),
    {
        self.0 == SymbolId::I8 || self.0 == SymbolId::I16 || self.0 == SymbolId::I32
            || self.0 == SymbolId::I64 || self.0 == SymbolId::U8 || self.0 == SymbolId::U16
            || self.0 == SymbolId::U32 || self.0 == SymbolId::U64
    }

    /// Whether `< <= > >=` apply: the numeric types.
    pub fn supports_ord(self) -> (r: bool)
        ensures
            r == is_num_id(self.0),
    {
        self.0 == SymbolId::I8 || self.0 == SymbolId::I16 || self.0 == SymbolId::I32
            || self.0 == SymbolId::I64 || self.0 == SymbolId::U8 || self.0 == SymbolId::U16
            || self.0 == SymbolId::U32 || self.0 == SymbolId::U64 || self.0 == SymbolId::F32
            || self.0 == SymbolId::F64
    }

    /// Whether `== !=` apply: the numeric types, `bool` and unit.
    pub fn supports_eq(self) -> (r: bool)
        ensures
            r == is_eq_id(self.0),
    {
        self.0 == SymbolId::I8 || self.0 == SymbolId::I16 || self.0 == SymbolId::I32
            || self.0 == SymbolId::I64 || self.0 == SymbolId::U8 || self.0 == SymbolId::U16
            || self.0 == SymbolId::U32 || self.0 == SymbolId::U64 || self.0 == SymbolId::F32
            || self.0 == SymbolId::F64 || self.0 == SymbolId::BOOL || self.0 == SymbolId::UNIT
    }

    pub fn is_num(self) -> (r: bool)
        ensures
            r == is_num_id(self.0),
    {
        self.0 == SymbolId::I8 || self.0 == SymbolId::I16 || self.0 == SymbolId::I32
            || self.0 == SymbolId::I64 || self.0 == SymbolId::U8 || self.0 == SymbolId::U16
            || self.0 == SymbolId::U32 || self.0 == SymbolId::U64 || self.0 == SymbolId::F32
            || self.0 == SymbolId::F64
    }

    pub fn is_int(self) -> (r: bool)
        ensures
            r == is_int_id(self.0),
    {
        self.0 == SymbolId::I8 || self.0 == SymbolId::I16 || self.0 == SymbolId::I32
            || self.0 == SymbolId::I64 || self.0 == SymbolId::U8 || self.0 == SymbolId::U16
            || self.0 == SymbolId::U32 || self.0 == SymbolId::U64
    }

    pub fn is_sint(self) -> (r: bool)
        ensures
            r == is_sint_id(self.0),
    {
        self.0 == SymbolId::I8 || self.0 == SymbolId::I16 || self.0 == SymbolId::I32
            || self.0 == SymbolId::I64
    }
}

/// Every type that supports bitwise operators supports arithmetic (and
/// ordering, which the same types support), every type that supports
/// arithmetic supports equality, and `bool` and unit support equality
/// without arithmetic; the signed integers are integers, the floats are not.
pub proof fn law_operator_support(id: SymbolId)
    ensures
        is_sint_id(id.0) ==> is_int_id(id.0),
        is_int_id(id.0) ==> is_num_id(id.0),
        is_num_id(id.0) ==> is_eq_id(id.0),
        is_eq_id(SymbolId::BOOL) && !is_num_id(SymbolId::BOOL),
        is_eq_id(SymbolId::UNIT) && !is_num_id(SymbolId::UNIT),
        is_num_id(SymbolId::F32) && !is_int_id(SymbolId::F32),
        is_num_id(SymbolId::F64) && !is_int_id(SymbolId::F64),
{
}


/// Signedness: the signed integers are `i8`, `i16`, `i32` and `i64` and no
/// others, so each of them is signed, while the unsigned integers `u8`,
/// `u16`, `u32` and `u64` are integers that are not signed.
pub proof fn law_signedness(id: SymbolId)
    ensures
        is_sint_id(id.0) <==> (id.0 == SymbolId::I8 || id.0 == SymbolId::I16 || id.0 == SymbolId::I32
            || id.0 == SymbolId::I64),
        is_int_id(id.0) && !is_sint_id(id.0) <==> (id.0 == SymbolId::U8 || id.0 == SymbolId::U16
            || id.0 == SymbolId::U32 || id.0 == SymbolId::U64),
{
}


/// Identifier of a list of generic arguments in a `SymbolMap`.
#[derive(Clone, Copy, Debug, PartialEq, Eq, Structural)]
pub struct GenListId(pub usize);

/// Identifier of an inference variable in a `SymbolMap`.
#[derive(Clone, Copy, Debug, PartialEq, Eq, Structural)]
pub struct VarId(pub usize);

impl GenListId {
    /// The empty generic list.
    pub const EMPTY: usize = 0;
}

/// An inference variable: the type it was unified with, if any.
#[derive(Clone, Copy, Debug, PartialEq, Eq, Structural)]
pub struct Var {
    pub sub: Option<Type>,
    pub range: SourceRange,
}

/// A named type or function, with the names of its generic parameters.
#[derive(Debug)]
pub struct Symbol {
    pub name: StringIndex,
    pub generics: Vec<StringIndex>,
    pub kind: SymbolKind,
}

#[derive(Debug)]
pub enum SymbolKind {
    Function(FunctionTy),
    Container(Container),
}

/// A type as written in a declaration: a generic parameter by name, or a
/// symbol applied to such types.
#[derive(Debug)]
pub struct Generic {
    pub range: SourceRange,
    pub kind: GenericKind,
}

#[derive(Debug)]
pub enum GenericKind {
    Generic(StringIndex),
    Sym(SymbolId, Vec<Generic>),
}

/// The symbols, generic lists and inference variables of a program.
///
/// Every generic list and every variable carries a ghost rank; a list's
/// entries and a variable's substitution always rank lower, so following
/// them always ends.
pub struct SymbolMap {
    pub syms: Vec<(Option<Symbol>, NamespaceId)>,
    pub tys: Vec<Vec<(StringIndex, Type)>>,
    pub vars: Vec<Var>,
    pub rank_v: Ghost<Seq<nat>>,
    pub rank_g: Ghost<Seq<nat>>,
}

/// `ERROR` and `NEVER` unify with every type.
pub open spec fn is_wild(s: SymbolId) -> bool {
    s.0 == SymbolId::ERROR || s.0 == SymbolId::NEVER
}

pub open spec fn min_nat(a: nat, b: nat) -> nat {
    if a <= b { a } else { b }
}

/// The number of variables not yet unified with anything.
pub open spec fn count_unbound(vs: Seq<Var>) -> nat
    decreases vs.len(),
{
    if vs.len() == 0 {
        0
    } else {
        count_unbound(vs.drop_last()) + (if vs.last().sub is None { 1nat } else { 0nat })
    }
}

impl SymbolMap {
    /// The entries of generic list `g`.
    pub open spec fn gl(self, g: int) -> Seq<(StringIndex, Type)> {
        self.tys@[g]@
    }

    pub open spec fn ty_ok(self, t: Type) -> bool {
        match t {
            Type::Ty(_, g) => g.0 < self.tys@.len(),
            Type::Var(v) => v.0 < self.vars@.len(),
        }
    }

    pub open spec fn ty_rank(self, t: Type) -> nat {
        match t {
            Type::Ty(_, g) => self.rank_g@[g.0 as int],
            Type::Var(v) => self.rank_v@[v.0 as int],
        }
    }

    pub open spec fn wf(self) -> bool {
        &&& self.tys@.len() >= 1
        &&& self.gl(0).len() == 0
        &&& self.rank_v@.len() == self.vars@.len()
        &&& self.rank_g@.len() == self.tys@.len()
        &&& forall|g: int, j: int| 0 <= g < self.tys@.len() && 0 <= j < self.gl(g).len() ==> {
            &&& self.ty_ok(#[trigger] self.gl(g)[j].1)
            &&& self.ty_rank(self.gl(g)[j].1) < self.rank_g@[g]
        }
        &&& forall|v: int| 0 <= v < self.vars@.len() ==> match #[trigger] self.vars@[v].sub {
            Some(s) => self.ty_ok(s) && self.ty_rank(s) < self.rank_v@[v],
            None => true,
        }
    }

    /// `t` with its chain of unified variables followed to its end: a
    /// symbol type or a variable not unified with anything.
    pub open spec fn shallow(self, t: Type) -> Type
        decreases self.ty_rank(t),
    {
        match t {
            Type::Ty(..) => t,
            Type::Var(v) => if v.0 < self.vars@.len() {
                match self.vars@[v.0 as int].sub {
                    Some(s) => if self.ty_rank(s) < self.rank_v@[v.0 as int] {
                        self.shallow(s)
                    } else {
                        t
                    },
                    None => t,
                }
            } else {
                t
            },
        }
    }

    /// `a` and `b` are equal types, where `ERROR` and `NEVER` stand for
    /// any type.
    pub open spec fn unified(self, a: Type, b: Type) -> bool
        decreases self.ty_rank(a) + self.ty_rank(b), 1nat, 0nat,
    {
        let a2 = self.shallow(a);
        let b2 = self.shallow(b);
        match (a2, b2) {
            (Type::Ty(sa, ga), Type::Ty(sb, gb)) => {
                if is_wild(sa) || is_wild(sb) {
                    true
                } else if sa != sb {
                    false
                } else if self.ty_rank(a2) <= self.ty_rank(a) && self.ty_rank(b2) <= self.ty_rank(b) {
                    self.unified_list(ga.0 as int, gb.0 as int, min_nat(self.gl(ga.0 as int).len(), self.gl(gb.0 as int).len()))
                } else {
                    false
                }
            },
            (Type::Var(x), Type::Var(y)) => x == y,
            _ => false,
        }
    }

    /// The first `n` entries of lists `ga` and `gb` are pairwise unified.
    pub open spec fn unified_list(self, ga: int, gb: int, n: nat) -> bool
        decreases self.rank_g@[ga] + self.rank_g@[gb], 0nat, n,
    {
        if n == 0 {
            true
        } else {
            let ea = self.gl(ga)[n - 1].1;
            let eb = self.gl(gb)[n - 1].1;
            &&& self.unified_list(ga, gb, (n - 1) as nat)
            &&& if self.ty_rank(ea) < self.rank_g@[ga] && self.ty_rank(eb) < self.rank_g@[gb] {
                self.unified(ea, eb)
            } else {
                false
            }
        }
    }

    /// `x` and `y` stand for the same type once every unified variable is
    /// replaced by what it was unified with.
    pub open spec fn same_res(self, x: Type, y: Type) -> bool
        decreases self.ty_rank(x) + self.ty_rank(y), 1nat, 0nat,
    {
        let x2 = self.shallow(x);
        let y2 = self.shallow(y);
        match (x2, y2) {
            (Type::Ty(sa, ga), Type::Ty(sb, gb)) => {
                &&& sa == sb
                &&& self.gl(ga.0 as int).len() == self.gl(gb.0 as int).len()
                &&& self.ty_rank(x2) <= self.ty_rank(x)
                &&& self.ty_rank(y2) <= self.ty_rank(y)
                &&& self.same_res_list(ga.0 as int, gb.0 as int, self.gl(ga.0 as int).len())
            },
            (Type::Var(a), Type::Var(b)) => a == b,
            _ => false,
        }
    }

    pub open spec fn same_res_list(self, ga: int, gb: int, n: nat) -> bool
        decreases self.rank_g@[ga] + self.rank_g@[gb], 0nat, n,
    {
        if n == 0 {
            true
        } else {
            let ea = self.gl(ga)[n - 1].1;
            let eb = self.gl(gb)[n - 1].1;
            &&& self.same_res_list(ga, gb, (n - 1) as nat)
            &&& if self.ty_rank(ea) < self.rank_g@[ga] && self.ty_rank(eb) < self.rank_g@[gb] {
                self.same_res(ea, eb)
            } else {
                false
            }
        }
    }

    /// Variable `a` occurs in `t`, directly or through unified variables.
    pub open spec fn reaches(self, t: Type, a: VarId) -> bool
        decreases self.ty_rank(t), 1nat, 0nat,
    {
        match t {
            Type::Var(v) => {
                ||| v == a
                ||| v.0 < self.vars@.len() && match self.vars@[v.0 as int].sub {
                    Some(s) => self.ty_rank(s) < self.rank_v@[v.0 as int] && self.reaches(s, a),
                    None => false,
                }
            },
            Type::Ty(_, g) => g.0 < self.tys@.len() && self.reaches_list(g.0 as int, a, self.gl(g.0 as int).len()),
        }
    }

    pub open spec fn reaches_list(self, g: int, a: VarId, n: nat) -> bool
        decreases self.rank_g@[g], 0nat, n,
    {
        if n == 0 {
            false
        } else {
            let e = self.gl(g)[n - 1].1;
            ||| self.reaches_list(g, a, (n - 1) as nat)
            ||| self.ty_rank(e) < self.rank_g@[g] && self.reaches(e, a)
        }
    }

    pub open spec fn unbound_count(self) -> nat {
        count_unbound(self.vars@)
    }

    /// `m2` keeps everything `m1` holds: its symbols, its generic lists and
    /// its variables, with every unified variable unified as before.
    pub open spec fn extends(self, m2: SymbolMap) -> bool {
        &&& m2.syms@ == self.syms@
        &&& m2.tys@.len() >= self.tys@.len()
        &&& forall|g: int| 0 <= g < self.tys@.len() ==> #[trigger] m2.gl(g) == self.gl(g)
        &&& m2.vars@.len() >= self.vars@.len()
        &&& forall|v: int| 0 <= v < self.vars@.len() ==> {
            &&& (#[trigger] m2.vars@[v]).range == self.vars@[v].range
            &&& (self.vars@[v].sub is Some ==> m2.vars@[v].sub == self.vars@[v].sub)
        }
    }

    /// No rank of `self` changed in `m2`.
    pub open spec fn ranks_kept(self, m2: SymbolMap) -> bool {
        &&& m2.rank_v@ == self.rank_v@
        &&& forall|g: int| 0 <= g < self.tys@.len() ==> #[trigger] m2.rank_g@[g] == self.rank_g@[g]
    }
}

} // verus!
